//! JSON text with places left open for doubles.
//!
//! Doubles are carried as their IEEE 754 bit patterns and are never formatted
//! here. An output text is therefore a sequence of atoms: characters, and
//! places where the caller writes out the double with the given bits.

use vstd::prelude::*;

verus! {

/// One symbol of an output text.
pub enum Atom {
    /// A character of finished text.
    Char(char),
    /// The place of a double, given by its bits, whose digits the caller writes.
    Float(u64),
}

/// The atom of one character.
pub open spec fn char_atom(c: char) -> Atom {
    Atom::Char(c)
}

/// The atoms of plain text.
pub open spec fn text_atoms(s: Seq<char>) -> Seq<Atom> {
    Seq::new(s.len(), |i: int| char_atom(s[i]))
}

/// The atoms of two texts, one after the other, are the atoms of the one and
/// then those of the other.
pub proof fn lemma_text_atoms_concat(a: Seq<char>, b: Seq<char>)
    ensures
        text_atoms(a + b) == text_atoms(a) + text_atoms(b),
{
    assert(text_atoms(a + b) =~= text_atoms(a) + text_atoms(b));
}

/// The empty text has no atoms.
pub proof fn lemma_text_atoms_empty()
    ensures
        text_atoms(Seq::<char>::empty()) == Seq::<Atom>::empty(),
{
    assert(text_atoms(Seq::<char>::empty()) =~= Seq::<Atom>::empty());
}

/// `parts`, one after the other, with `sep` between neighbours.
pub open spec fn join(parts: Seq<Seq<Atom>>, sep: Seq<Atom>) -> Seq<Atom>
    decreases parts.len(),
{
    if parts.len() == 0 {
        Seq::empty()
    } else if parts.len() == 1 {
        parts[0]
    } else {
        join(parts.drop_last(), sep) + sep + parts.last()
    }
}

/// A piece of an output text as it is handed out.
#[derive(Debug)]
pub enum Chunk {
    /// Finished text, to be written as it is.
    Text(String),
    /// A double, given by its bits, to be written in its JSON form.
    Float(u64),
}

impl Chunk {
    /// The atoms of the chunk.
    pub open spec fn atoms(self) -> Seq<Atom> {
        match self {
            Chunk::Text(s) => text_atoms(s@),
            Chunk::Float(bits) => seq![Atom::Float(bits)],
        }
    }
}

/// The atoms of a sequence of chunks.
pub open spec fn chunks_atoms(chunks: Seq<Chunk>) -> Seq<Atom>
    decreases chunks.len(),
{
    if chunks.len() == 0 {
        Seq::empty()
    } else {
        chunks_atoms(chunks.drop_last()) + chunks.last().atoms()
    }
}

/// An output text under construction.
#[derive(Debug)]
pub struct JsonText {
    chunks: Vec<Chunk>,
    tail: String,
}

impl View for JsonText {
    type V = Seq<Atom>;

    closed spec fn view(&self) -> Seq<Atom> {
        chunks_atoms(self.chunks@) + text_atoms(self.tail@)
    }
}

impl JsonText {
    /// The empty text.
    pub fn new() -> (r: JsonText)
        ensures
            r@ == Seq::<Atom>::empty(),
    {
        let r = JsonText { chunks: Vec::new(), tail: String::new() };
        proof {
            lemma_text_atoms_empty();
            assert(r@ =~= Seq::<Atom>::empty());
        }
        r
    }

    /// Appends plain text.
    pub fn push_str(&mut self, s: &str)
        ensures
            final(self)@ == old(self)@ + text_atoms(s@),
    {
        self.tail.append(s);
        proof {
            lemma_text_atoms_concat(old(self).tail@, s@);
            assert(self@ =~= old(self)@ + text_atoms(s@));
        }
    }

    /// Appends the place of a double.
    pub fn push_float(&mut self, bits: u64)
        ensures
            final(self)@ == old(self)@ + seq![Atom::Float(bits)],
    {
        let mut tail = String::new();
        std::mem::swap(&mut tail, &mut self.tail);
        let ghost before = self.chunks@;
        self.chunks.push(Chunk::Text(tail));
        let ghost middle = self.chunks@;
        self.chunks.push(Chunk::Float(bits));
        proof {
            lemma_text_atoms_empty();
            assert(middle.drop_last() =~= before);
            assert(chunks_atoms(middle) == chunks_atoms(before) + text_atoms(old(self).tail@));
            assert(self.chunks@.drop_last() =~= middle);
            assert(chunks_atoms(self.chunks@) == chunks_atoms(middle) + seq![Atom::Float(bits)]);
            assert(self@ =~= old(self)@ + seq![Atom::Float(bits)]);
        }
    }

    /// Appends another text.
    pub fn push_text(&mut self, other: JsonText)
        ensures
            final(self)@ == old(self)@ + other@,
    {
        let chunks = other.into_chunks();
        let mut i: usize = 0;
        while i < chunks.len()
            invariant
                i <= chunks.len(),
                self@ == old(self)@ + chunks_atoms(chunks@.take(i as int)),
            decreases chunks.len() - i,
        {
            proof {
                assert(chunks@.take(i + 1).drop_last() =~= chunks@.take(i as int));
            }
            match &chunks[i] {
                Chunk::Text(s) => {
                    self.push_str(s.as_str());
                },
                Chunk::Float(bits) => {
                    self.push_float(*bits);
                },
            }
            i += 1;
        }
        proof {
            assert(chunks@.take(chunks@.len() as int) =~= chunks@);
        }
    }

    /// Whether nothing was written.
    pub fn is_empty(&self) -> (r: bool)
        ensures
            r == (self@.len() == 0),
    {
        self.tail.as_str().is_empty() && self.no_atoms_before_tail()
    }

    fn no_atoms_before_tail(&self) -> (r: bool)
        ensures
            r == (chunks_atoms(self.chunks@).len() == 0),
    {
        let mut i: usize = 0;
        while i < self.chunks.len()
            invariant
                i <= self.chunks.len(),
                chunks_atoms(self.chunks@.take(i as int)).len() == 0,
            decreases self.chunks.len() - i,
        {
            proof {
                assert(self.chunks@.take(i + 1).drop_last() =~= self.chunks@.take(i as int));
                lemma_chunks_atoms_prefix(self.chunks@, i + 1);
            }
            match &self.chunks[i] {
                Chunk::Text(s) => {
                    if !s.as_str().is_empty() {
                        return false;
                    }
                },
                Chunk::Float(_) => {
                    return false;
                },
            }
            i += 1;
        }
        proof {
            assert(self.chunks@.take(self.chunks@.len() as int) =~= self.chunks@);
        }
        true
    }

    /// Appends `s` as a JSON string literal.
    pub fn push_quoted(&mut self, s: &str)
        ensures
            final(self)@ == old(self)@ + text_atoms(quoted(s@)),
    {
        let q = quote(s);
        self.push_str(q.as_str());
    }

    /// Appends `n` in decimal.
    pub fn push_u64(&mut self, n: u64)
        ensures
            final(self)@ == old(self)@ + text_atoms(decimal(n as nat)),
    {
        let d = render_u64(n);
        self.push_str(d.as_str());
    }

    /// Appends `n` in decimal, with a minus sign if it is negative.
    pub fn push_i64(&mut self, n: i64)
        ensures
            final(self)@ == old(self)@ + text_atoms(signed_decimal(n as int)),
    {
        let d = render_i64(n);
        self.push_str(d.as_str());
    }

    /// The text as chunks, in order.
    pub fn into_chunks(self) -> (r: Vec<Chunk>)
        ensures
            chunks_atoms(r@) == self@,
    {
        let mut chunks = self.chunks;
        let ghost before = chunks@;
        chunks.push(Chunk::Text(self.tail));
        proof {
            assert(chunks@.drop_last() =~= before);
        }
        chunks
    }
}

/// The digit `d` as a character.
pub open spec fn digit(d: nat) -> char {
    if d == 0 {
        '0'
    } else if d == 1 {
        '1'
    } else if d == 2 {
        '2'
    } else if d == 3 {
        '3'
    } else if d == 4 {
        '4'
    } else if d == 5 {
        '5'
    } else if d == 6 {
        '6'
    } else if d == 7 {
        '7'
    } else if d == 8 {
        '8'
    } else {
        '9'
    }
}

/// `n` in decimal, without leading zeros.
pub open spec fn decimal(n: nat) -> Seq<char>
    decreases n,
{
    if n < 10 {
        seq![digit(n)]
    } else {
        decimal(n / 10).push(digit(n % 10))
    }
}

/// `n` in decimal, with a minus sign if it is negative.
pub open spec fn signed_decimal(n: int) -> Seq<char> {
    if n < 0 {
        seq!['-'] + decimal((-n) as nat)
    } else {
        decimal(n as nat)
    }
}

/// The lower-case hexadecimal digit `d` as a character.
pub open spec fn hex_digit(d: nat) -> char {
    if d < 10 {
        digit(d)
    } else if d == 10 {
        'a'
    } else if d == 11 {
        'b'
    } else if d == 12 {
        'c'
    } else if d == 13 {
        'd'
    } else if d == 14 {
        'e'
    } else {
        'f'
    }
}

/// What stands for the character `c` inside a JSON string literal: the quotation
/// mark and the backslash behind a backslash, a control character by its short
/// escape where it has one and else as `\u00` with two hexadecimal digits, and
/// every other character as itself.
pub open spec fn escape_char(c: char) -> Seq<char> {
    if c == '"' {
        seq!['\\', '"']
    } else if c == '\\' {
        seq!['\\', '\\']
    } else if c == '\u{8}' {
        seq!['\\', 'b']
    } else if c == '\t' {
        seq!['\\', 't']
    } else if c == '\n' {
        seq!['\\', 'n']
    } else if c == '\u{c}' {
        seq!['\\', 'f']
    } else if c == '\r' {
        seq!['\\', 'r']
    } else if (c as u32) < 0x20 {
        seq!['\\', 'u', '0', '0', hex_digit((c as u32 / 16) as nat), hex_digit((c as u32 % 16) as nat)]
    } else {
        seq![c]
    }
}

/// The characters of `s`, each escaped for a JSON string literal.
pub open spec fn escaped(s: Seq<char>) -> Seq<char>
    decreases s.len(),
{
    if s.len() == 0 {
        Seq::empty()
    } else {
        escaped(s.drop_last()) + escape_char(s.last())
    }
}

/// The JSON string literal for `s`.
pub open spec fn quoted(s: Seq<char>) -> Seq<char> {
    seq!['"'] + escaped(s) + seq!['"']
}

/// Calls `serde_json::to_string` on a string slice. The contract claims that the
/// call cannot fail on a string, and that the result is the string between two
/// quotation marks with each character escaped as `escape_char` says, which is
/// what the escape table and the writer of the compact formatter in
/// `serde_json::ser` do.
#[verifier::external_body]
fn quote(s: &str) -> (r: String)
    ensures
        r@ == quoted(s@),
{
    serde_json::to_string(s).unwrap_or_default()
}

fn digit_str(d: u64) -> (r: &'static str)
    requires
        d < 10,
    ensures
        r@ == seq![digit(d as nat)],
{
    proof {
        reveal_strlit("0");
        reveal_strlit("1");
        reveal_strlit("2");
        reveal_strlit("3");
        reveal_strlit("4");
        reveal_strlit("5");
        reveal_strlit("6");
        reveal_strlit("7");
        reveal_strlit("8");
        reveal_strlit("9");
    }
    let r = if d == 0 {
        "0"
    } else if d == 1 {
        "1"
    } else if d == 2 {
        "2"
    } else if d == 3 {
        "3"
    } else if d == 4 {
        "4"
    } else if d == 5 {
        "5"
    } else if d == 6 {
        "6"
    } else if d == 7 {
        "7"
    } else if d == 8 {
        "8"
    } else {
        "9"
    };
    assert(r@ =~= seq![digit(d as nat)]);
    r
}

/// Writes `n` in decimal.
pub fn render_u64(n: u64) -> (r: String)
    ensures
        r@ == decimal(n as nat),
    decreases n,
{
    if n < 10 {
        String::from_str(digit_str(n))
    } else {
        let mut r = render_u64(n / 10);
        r.append(digit_str(n % 10));
        assert(r@ =~= decimal(n as nat));
        r
    }
}

/// Writes `n` in decimal, with a minus sign if it is negative.
pub fn render_i64(n: i64) -> (r: String)
    ensures
        r@ == signed_decimal(n as int),
{
    if n >= 0 {
        render_u64(n as u64)
    } else {
        let magnitude: u64 = (-(n + 1)) as u64 + 1;
        let digits = render_u64(magnitude);
        let mut r = String::from_str("-");
        r.append(digits.as_str());
        proof {
            reveal_strlit("-");
            assert(r@ =~= signed_decimal(n as int));
        }
        r
    }
}

/// A prefix of the chunks gives a prefix of the atoms.
pub proof fn lemma_chunks_atoms_prefix(chunks: Seq<Chunk>, n: int)
    requires
        0 <= n <= chunks.len(),
    ensures
        chunks_atoms(chunks.take(n)).len() <= chunks_atoms(chunks).len(),
    decreases chunks.len(),
{
    if n == chunks.len() {
        assert(chunks.take(n) =~= chunks);
    } else {
        assert(chunks.drop_last().take(n) =~= chunks.take(n));
        lemma_chunks_atoms_prefix(chunks.drop_last(), n);
    }
}

} // verus!
