//! Sources of program text (files, interactive inputs) and positions in
//! them, for error reports.

use vstd::prelude::*;
use crate::span::Span;

verus! {

/// Identifies a source in a [`Registry`]: its position there.
#[derive(Debug, Clone, Copy, PartialEq, Eq, Structural, Hash)]
pub struct Id(u32);

impl Id {
    /// The raw index.
    pub closed spec fn raw(self) -> u32 {
        self.0
    }

    /// The id with the given raw index.
    pub fn new(index: u32) -> (r: Self)
        ensures
            r.raw() == index,
    {
        Id(index)
    }

    /// The raw index of this id.
    pub fn index(self) -> (r: u32)
        ensures
            r == self.raw(),
    {
        self.0
    }
}

/// A place in program text: which source, and which bytes of it.
#[derive(Debug, Clone, Copy, PartialEq, Eq, Structural)]
#[non_exhaustive]
pub struct Location {
    /// The source.
    pub source: Id,
    /// The byte range within the source.
    pub span: Span,
}

impl Location {
    /// A location from its two parts.
    pub fn new(source: Id, span: Span) -> (r: Self)
        ensures
            r.source == source,
            r.span == span,
    {
        Location { source, span }
    }
}

/// A source: its human-readable name and its text.
#[derive(Debug, Clone)]
#[non_exhaustive]
pub struct Entry {
    /// Name shown in error messages: `<repl>`, `main.lona`, ...
    pub name: String,
    /// The source text.
    pub content: String,
}

/// The line and column reached after reading `b` at line and column `lc`:
/// a newline starts the next line, the first byte of each other character
/// moves one column on, and the bytes that continue a character do not
/// move.
pub open spec fn lc_step(lc: (nat, nat), b: u8) -> (nat, nat) {
    if b == 10 {
        (lc.0 + 1, 1)
    } else if 0x80 <= b < 0xc0 {
        lc
    } else {
        (lc.0, lc.1 + 1)
    }
}

/// The 1-based line and column of the character that follows `bytes`.
pub open spec fn line_col_after(bytes: Seq<u8>) -> (nat, nat)
    decreases bytes.len(),
{
    if bytes.len() == 0 {
        (1, 1)
    } else {
        lc_step(line_col_after(bytes.drop_last()), bytes.last())
    }
}

/// The 1-based line and column of the character that follows the
/// characters `cs`: each newline starts a new line at column 1, and each
/// other character moves one column on, whatever its encoded length.
pub open spec fn char_line_col(cs: Seq<char>) -> (nat, nat)
    decreases cs.len(),
{
    if cs.len() == 0 {
        (1, 1)
    } else {
        let p = char_line_col(cs.drop_last());
        if cs.last() == '\n' {
            (p.0 + 1, 1)
        } else {
            (p.0, p.1 + 1)
        }
    }
}

proof fn lemma_byte_classes(v: u32)
    by (bit_vector)
    ensures
        v <= 0x7f ==> ((v & 0x7F) as u8) as u32 == v,
        0xc0u8 <= (0xC0u8 | ((v >> 6u32) & 0x1F) as u8),
        0xc0u8 <= (0xE0u8 | ((v >> 12u32) & 0x0F) as u8),
        0xc0u8 <= (0xF0u8 | ((v >> 18u32) & 0x7) as u8),
        0x80u8 <= (0x80u8 | (v & 0x3F) as u8) < 0xc0u8,
        0x80u8 <= (0x80u8 | ((v >> 6u32) & 0x3F) as u8) < 0xc0u8,
        0x80u8 <= (0x80u8 | ((v >> 12u32) & 0x3F) as u8) < 0xc0u8,
{
}

/// Reading one more byte.
proof fn lemma_lc_push(x: Seq<u8>, b: u8)
    ensures
        line_col_after(x.push(b)) == lc_step(line_col_after(x), b),
{
    assert(x.push(b).drop_last() =~= x);
}

/// Bytes that continue a character do not move.
proof fn lemma_lc_cont(x: Seq<u8>, t: Seq<u8>)
    requires
        forall|j: int| 0 <= j < t.len() ==> 0x80 <= #[trigger] t[j] < 0xc0,
    ensures
        line_col_after(x + t) == line_col_after(x),
    decreases t.len(),
{
    if t.len() > 0 {
        lemma_lc_cont(x, t.drop_last());
        assert((x + t.drop_last()).push(t.last()) =~= x + t);
        lemma_lc_push(x + t.drop_last(), t.last());
    } else {
        assert(x + t =~= x);
    }
}

/// Reading the encoding of one character moves as the character does.
proof fn lemma_lc_char(x: Seq<u8>, c: char)
    ensures
        line_col_after(x + vstd::utf8::encode_scalar(c as u32)) == (if c == '\n' {
            (line_col_after(x).0 + 1, 1nat)
        } else {
            (line_col_after(x).0, line_col_after(x).1 + 1)
        }),
{
    let v = c as u32;
    vstd::utf8::char_is_scalar(c);
    let e = vstd::utf8::encode_scalar(v);
    let lc = line_col_after(x);
    if vstd::utf8::has_width_1_encoding(v) {
        let b0 = vstd::utf8::leading_byte_width_1(v);
        lemma_byte_classes(v);
        assert(x + e =~= x.push(b0));
        lemma_lc_push(x, b0);
        assert(b0 as u32 == v);
        if c == '\n' {
            assert(v == 10);
        } else {
            assert(b0 != 10) by {
                if b0 == 10 {
                    assert(v == 10);
                    vstd::utf8::char_u32_cast(c, v);
                    assert((10u32 as char) == '\n');
                }
            }
        }
    } else {
        let b0: u8 = e[0];
        lemma_byte_classes(v);
        assert(b0 >= 0xc0);
        assert(c != '\n') by {
            if c == '\n' {
                assert(v == 10);
            }
        }
        let t = e.drop_first();
        assert forall|j: int| 0 <= j < t.len() implies 0x80 <= #[trigger] t[j] < 0xc0 by {
            assert(t[j] == e[j + 1]);
        }
        lemma_lc_push(x, b0);
        lemma_lc_cont(x.push(b0), t);
        assert(x.push(b0) + t =~= x + e);
    }
}

/// Encoding a concatenation encodes each part.
proof fn lemma_encode_concat(a: Seq<char>, b: Seq<char>)
    ensures
        vstd::utf8::encode_utf8(a + b) == vstd::utf8::encode_utf8(a) + vstd::utf8::encode_utf8(b),
    decreases a.len(),
{
    if a.len() == 0 {
        assert(a + b =~= b);
        assert(vstd::utf8::encode_utf8(a) + vstd::utf8::encode_utf8(b) =~= vstd::utf8::encode_utf8(b));
    } else {
        lemma_encode_concat(a.drop_first(), b);
        assert((a + b).drop_first() =~= a.drop_first() + b);
        assert((a + b)[0] == a[0]);
        assert(vstd::utf8::encode_utf8(a + b) =~= vstd::utf8::encode_utf8(a) + vstd::utf8::encode_utf8(b));
    }
}

/// Lines and columns counted over the UTF-8 bytes of a text are those
/// counted over its characters.
proof fn lemma_lc_chars(cs: Seq<char>)
    ensures
        line_col_after(vstd::utf8::encode_utf8(cs)) == char_line_col(cs),
    decreases cs.len(),
{
    if cs.len() > 0 {
        let init = cs.drop_last();
        let c = cs.last();
        lemma_lc_chars(init);
        assert(init + seq![c] =~= cs);
        lemma_encode_concat(init, seq![c]);
        assert(seq![c].drop_first() =~= Seq::<char>::empty());
        assert(seq![c][0] == c);
        assert(vstd::utf8::encode_utf8(Seq::<char>::empty()) =~= Seq::<u8>::empty());
        assert(vstd::utf8::encode_utf8(seq![c]) == vstd::utf8::encode_scalar(c as u32) + vstd::utf8::encode_utf8(
            seq![c].drop_first(),
        ));
        assert(vstd::utf8::encode_utf8(seq![c]) =~= vstd::utf8::encode_scalar(c as u32));
        lemma_lc_char(vstd::utf8::encode_utf8(init), c);
    }
}

/// The line and column of a character are counted in characters: at the
/// byte offset where the `k`-th character of a text begins, the line is
/// one more than the newlines before it and the column one more than the
/// characters since the last of them, however many bytes each takes.
pub proof fn law_line_col_counts_characters(cs: Seq<char>, k: int)
    requires
        0 <= k <= cs.len(),
    ensures
        ({
            let text = vstd::utf8::encode_utf8(cs);
            let offset = vstd::utf8::encode_utf8(cs.take(k)).len();
            &&& offset <= text.len()
            &&& line_col_after(text.take(offset as int)) == char_line_col(cs.take(k))
        }),
{
    assert(cs.take(k) + cs.skip(k) =~= cs);
    lemma_encode_concat(cs.take(k), cs.skip(k));
    let p = vstd::utf8::encode_utf8(cs.take(k));
    let text = vstd::utf8::encode_utf8(cs);
    assert(text.take(p.len() as int) =~= p);
    lemma_lc_chars(cs.take(k));
}


/// `n`, or `u32::MAX` if it does not fit.
pub open spec fn saturate_u32(n: nat) -> u32 {
    if n > u32::MAX {
        u32::MAX
    } else {
        n as u32
    }
}

impl Entry {
    /// A source with the given name and text.
    pub fn new(name: String, content: String) -> (r: Self)
        ensures
            r.name == name,
            r.content == content,
    {
        Entry { name, content }
    }

    /// The 1-based line and column of the character at byte `offset`
    /// (each saturating at `u32::MAX`). The characters that start before
    /// `offset` are counted; an offset past the end gives the position
    /// just after the text.
    pub fn line_col(&self, offset: usize) -> (r: (u32, u32))
        ensures
            ({
                let text = vstd::utf8::encode_utf8(self.content@);
                let lc = line_col_after(text.take(if offset < text.len() { offset as int } else { text.len() as int }));
                r == (saturate_u32(lc.0), saturate_u32(lc.1))
            }),
            forall|k: int|
                0 <= k <= self.content@.len() && offset == #[trigger] vstd::utf8::encode_utf8(self.content@.take(k)).len()
                    ==> r == (saturate_u32(char_line_col(self.content@.take(k)).0), saturate_u32(
                    char_line_col(self.content@.take(k)).1,
                )),
    {
        proof {
            assert forall|k: int|
                0 <= k <= self.content@.len() && offset == #[trigger] vstd::utf8::encode_utf8(self.content@.take(k)).len()
                    implies vstd::utf8::encode_utf8(self.content@).take(offset as int) == vstd::utf8::encode_utf8(
                    self.content@,
                ).take(if offset < vstd::utf8::encode_utf8(self.content@).len() {
                    offset as int
                } else {
                    vstd::utf8::encode_utf8(self.content@).len() as int
                }) && line_col_after(vstd::utf8::encode_utf8(self.content@).take(offset as int)) == char_line_col(
                    self.content@.take(k),
                ) by {
                law_line_col_counts_characters(self.content@, k);
            }
        }
        let bytes = self.content.as_str().as_bytes();
        let ghost text = bytes@;
        let end = if offset < bytes.len() {
            offset
        } else {
            bytes.len()
        };
        let mut line: u32 = 1;
        let mut col: u32 = 1;
        let mut i: usize = 0;
        while i < end
            invariant
                text == bytes@,
                end <= text.len(),
                i <= end,
                line == saturate_u32(line_col_after(text.take(i as int)).0),
                col == saturate_u32(line_col_after(text.take(i as int)).1),
            decreases end - i,
        {
            let b = bytes[i];
            proof {
                assert(text.take(i + 1).drop_last() =~= text.take(i as int));
                assert(text.take(i + 1).last() == b);
            }
            if b == 10 {
                line = line.saturating_add(1);
                col = 1;
            } else if b < 0x80 || b >= 0xc0 {
                col = col.saturating_add(1);
            }
            i = i + 1;
        }
        (line, col)
    }
}

/// The sources of a program, each found again by the [`Id`] it was given.
#[derive(Debug)]
pub struct Registry {
    sources: Vec<Entry>,
}

impl View for Registry {
    type V = Seq<Entry>;

    /// The sources in the order they were added.
    closed spec fn view(&self) -> Seq<Entry> {
        self.sources@
    }
}

impl Registry {
    /// An empty registry.
    pub fn new() -> (r: Self)
        ensures
            r@ == Seq::<Entry>::empty(),
    {
        Registry { sources: Vec::new() }
    }

    /// Adds a source and returns its id; `None` once the registry holds
    /// more sources than a `u32` can count, the registry then unchanged.
    pub fn add(&mut self, name: String, content: String) -> (r: Option<Id>)
        ensures
            match r {
                Some(id) => {
                    &&& id.raw() == old(self)@.len()
                    &&& final(self)@ == old(self)@.push(Entry { name, content })
                },
                None => {
                    &&& old(self)@.len() > u32::MAX
                    &&& final(self)@ == old(self)@
                },
            },
    {
        let n = self.sources.len();
        if n > 0xffff_ffffusize {
            return None;
        }
        let id = Id(n as u32);
        self.sources.push(Entry::new(name, content));
        Some(id)
    }

    /// The source with id `id`, if this registry gave it out.
    pub fn get(&self, id: Id) -> (r: Option<&Entry>)
        ensures
            r == (if (id.raw() as int) < self@.len() { Some(&self@[id.raw() as int]) } else { None }),
    {
        let i = id.0 as usize;
        if i < self.sources.len() {
            Some(&self.sources[i])
        } else {
            None
        }
    }

    /// The number of sources.
    pub fn len(&self) -> (r: usize)
        ensures
            r == self@.len(),
    {
        self.sources.len()
    }

    /// Whether the registry holds no source.
    pub fn is_empty(&self) -> (r: bool)
        ensures
            r == (self@.len() == 0),
    {
        self.sources.len() == 0
    }
}

impl Default for Registry {
    fn default() -> (r: Self)
        ensures
            r@ == Seq::<Entry>::empty(),
    {
        Registry::new()
    }
}

/// Ids are handed out in order: each source added gets the next index, and
/// every id handed out finds its source again.
pub proof fn law_registry_ids(before: Seq<Entry>, e: Entry)
    ensures
        before.push(e)[before.len() as int] == e,
        forall|i: int| 0 <= i < before.len() ==> #[trigger] before.push(e)[i] == before[i],
{
}

} // verus!
