//! Immutable, reference-counted strings: cloning one shares its text.

use std::rc::Rc;
use vstd::prelude::*;
use vstd::string::StrSliceExecFns;
use crate::text::push_char;

verus! {

/// An immutable string whose clones share one allocation.
#[derive(Clone, Debug, PartialOrd, Ord, Hash)]
pub struct HeapStr(Rc<String>);

impl View for HeapStr {
    type V = Seq<char>;

    /// The characters of the string.
    closed spec fn view(&self) -> Seq<char> {
        self.0@
    }
}

impl HeapStr {
    /// A string holding a copy of `text`.
    pub fn new(text: &str) -> (r: Self)
        ensures
            r@ == text@,
    {
        HeapStr(Rc::new(text.to_owned()))
    }

    /// The text.
    pub fn as_str(&self) -> (r: &str)
        ensures
            r@ == self@,
    {
        self.0.as_str()
    }

    /// The length in bytes of the UTF-8 encoding.
    pub fn len(&self) -> (r: usize)
        ensures
            r == vstd::utf8::encode_utf8(self@).len() as usize,
    {
        self.0.as_str().len()
    }

    /// Whether the string is empty.
    pub fn is_empty(&self) -> (r: bool)
        ensures
            r == (self@.len() == 0),
    {
        self.0.as_str().is_empty()
    }

    /// The text as an owned string.
    pub fn to_string(&self) -> (r: String)
        ensures
            r@ == self@,
    {
        self.0.as_str().to_owned()
    }
}

/// How `c` is written inside a quoted string: quote, backslash and the
/// tab, carriage return, newline and NUL control characters take a
/// backslash escape; every other character stands for itself.
pub open spec fn escaped(c: char) -> Seq<char> {
    if c == '"' {
        seq!['\\', '"']
    } else if c == '\\' {
        seq!['\\', '\\']
    } else if c == '\n' {
        seq!['\\', 'n']
    } else if c == '\r' {
        seq!['\\', 'r']
    } else if c == '\t' {
        seq!['\\', 't']
    } else if c == '\0' {
        seq!['\\', '0']
    } else {
        seq![c]
    }
}

/// The escapes of the characters of `s`, in order.
pub open spec fn escaped_text(s: Seq<char>) -> Seq<char>
    decreases s.len(),
{
    if s.len() == 0 {
        Seq::empty()
    } else {
        escaped_text(s.drop_last()) + escaped(s.last())
    }
}

/// Appends the escape of `c`.
fn push_escaped(out: &mut String, c: char)
    ensures
        final(out)@ == old(out)@ + escaped(c),
{
    if c == '"' {
        push_char(out, '\\');
        push_char(out, '"');
    } else if c == '\\' {
        push_char(out, '\\');
        push_char(out, '\\');
    } else if c == '\n' {
        push_char(out, '\\');
        push_char(out, 'n');
    } else if c == '\r' {
        push_char(out, '\\');
        push_char(out, 'r');
    } else if c == '\t' {
        push_char(out, '\\');
        push_char(out, 't');
    } else if c == '\0' {
        push_char(out, '\\');
        push_char(out, '0');
    } else {
        push_char(out, c);
    }
    assert(final(out)@ =~= old(out)@ + escaped(c));
}

impl HeapStr {
    /// The text quoted, with quote, backslash and the common control
    /// characters escaped: `"hello"`.
    pub fn debug_text(&self) -> (r: String)
        ensures
            r@ == seq!['"'] + escaped_text(self@) + seq!['"'],
            r@.len() >= 2 && r@[0] == '"' && r@.last() == '"',
            unquote_body(r@.subrange(1, r@.len() - 1)) == Some(self@),
    {
        let text = self.0.as_str();
        let n = text.unicode_len();
        let mut out = String::new();
        push_char(&mut out, '"');
        let mut i: usize = 0;
        while i < n
            invariant
                i <= n,
                n == text@.len(),
                text@ == self@,
                out@ == seq!['"'] + escaped_text(self@.take(i as int)),
            decreases n - i,
        {
            let c = text.get_char(i);
            push_escaped(&mut out, c);
            proof {
                assert(self@.take(i + 1).drop_last() =~= self@.take(i as int));
                assert(out@ =~= seq!['"'] + escaped_text(self@.take(i + 1)));
            }
            i = i + 1;
        }
        push_char(&mut out, '"');
        assert(self@.take(n as int) =~= self@);
        proof {
            law_debug_text_reads_back(self@);
            assert(out@.subrange(1, out@.len() - 1) =~= escaped_text(self@));
        }
        out
    }

    /// Whether two strings share one allocation (as a string and its
    /// clones do). Allocations are not modelled: all that is stated is that
    /// strings sharing one allocation hold the same text.
    pub fn ptr_eq(a: &HeapStr, b: &HeapStr) -> (r: bool)
        ensures
            r ==> a@ == b@,
    {
        same_allocation(&a.0, &b.0)
    }
}

/// `Rc::ptr_eq`: whether two handles point to one allocation. Handles on
/// one allocation hold one value; nothing more of the result is stated,
/// since allocation identity is not modelled.
#[verifier::external_body]
fn same_allocation(a: &Rc<String>, b: &Rc<String>) -> (r: bool)
    ensures
        r ==> **a == **b,
{
    Rc::ptr_eq(a, b)
}

impl AsRef<str> for HeapStr {
    fn as_ref(&self) -> (r: &str)
        ensures
            r@ == self@,
    {
        self.as_str()
    }
}

impl PartialEq for HeapStr {
    fn eq(&self, other: &Self) -> (r: bool) {
        *self.0 == *other.0
    }
}

impl vstd::std_specs::cmp::PartialEqSpecImpl for HeapStr {
    open spec fn obeys_eq_spec() -> bool {
        true
    }

    open spec fn eq_spec(&self, other: &Self) -> bool {
        self@ == other@
    }
}

impl Eq for HeapStr {}

impl vstd::std_specs::convert::FromSpecImpl<&str> for HeapStr {
    open spec fn obeys_from_spec() -> bool {
        false
    }

    open spec fn from_spec(v: &str) -> Self {
        arbitrary()
    }
}

impl vstd::std_specs::convert::FromSpecImpl<String> for HeapStr {
    open spec fn obeys_from_spec() -> bool {
        false
    }

    open spec fn from_spec(v: String) -> Self {
        arbitrary()
    }
}

impl From<&str> for HeapStr {
    fn from(text: &str) -> (r: Self)
        ensures
            r@ == text@,
    {
        HeapStr::new(text)
    }
}

impl From<String> for HeapStr {
    fn from(text: String) -> (r: Self)
        ensures
            r@ == text@,
    {
        HeapStr(Rc::new(text))
    }
}

/// The character a backslash escape names: `\"`, `\\`, `\n`, `\r`, `\t`
/// and `\0`; none for any other character after the backslash.
pub open spec fn unescape_char(c: char) -> Option<char> {
    if c == '"' {
        Some('"')
    } else if c == '\\' {
        Some('\\')
    } else if c == 'n' {
        Some('\n')
    } else if c == 'r' {
        Some('\r')
    } else if c == 't' {
        Some('\t')
    } else if c == '0' {
        Some('\0')
    } else {
        None
    }
}

/// Reads the inside of a quoted string back into its text: a backslash
/// and the character after it stand for the character the escape names,
/// every other character for itself. A bare quote (which would end the
/// string), a lone backslash or an unknown escape makes it unreadable.
pub open spec fn unquote_body(t: Seq<char>) -> Option<Seq<char>>
    decreases t.len(),
{
    if t.len() == 0 {
        Some(Seq::empty())
    } else if t[0] == '"' {
        None
    } else if t[0] == '\\' {
        if t.len() < 2 {
            None
        } else {
            match (unescape_char(t[1]), unquote_body(t.subrange(2, t.len() as int))) {
                (Some(c), Some(r)) => Some(seq![c] + r),
                _ => None,
            }
        }
    } else {
        match unquote_body(t.subrange(1, t.len() as int)) {
            Some(r) => Some(seq![t[0]] + r),
            None => None,
        }
    }
}

/// Escaping a concatenation escapes each part.
proof fn lemma_escaped_concat(a: Seq<char>, b: Seq<char>)
    ensures
        escaped_text(a + b) == escaped_text(a) + escaped_text(b),
    decreases b.len(),
{
    if b.len() == 0 {
        assert(a + b =~= a);
        assert(escaped_text(a) + escaped_text(b) =~= escaped_text(a));
    } else {
        lemma_escaped_concat(a, b.drop_last());
        assert((a + b).drop_last() =~= a + b.drop_last());
        assert((a + b).last() == b.last());
        assert(escaped_text(a + b) =~= escaped_text(a) + escaped_text(b));
    }
}

/// The quoted form reads back: the text between the quotes that
/// [`HeapStr::debug_text`] writes holds no bare quote and unescapes to
/// exactly the original text.
pub proof fn law_debug_text_reads_back(s: Seq<char>)
    ensures
        unquote_body(escaped_text(s)) == Some(s),
    decreases s.len(),
{
    if s.len() == 0 {
        assert(s =~= Seq::<char>::empty());
    } else {
        let c = s[0];
        let rest = s.drop_first();
        law_debug_text_reads_back(rest);
        assert(seq![c] + rest =~= s);
        lemma_escaped_concat(seq![c], rest);
        assert(seq![c].drop_last() =~= Seq::<char>::empty());
        assert(seq![c].last() == c);
        assert(escaped_text(Seq::<char>::empty()) =~= Seq::<char>::empty());
        assert(escaped_text(seq![c]) == escaped_text(seq![c].drop_last()) + escaped(c));
        assert(escaped_text(seq![c]) =~= escaped(c));
        let t = escaped(c) + escaped_text(rest);
        if escaped(c).len() == 2 {
            assert(t.subrange(2, t.len() as int) =~= escaped_text(rest));
        } else {
            assert(t.subrange(1, t.len() as int) =~= escaped_text(rest));
        }
        assert(seq![c] + rest =~= s);
    }
}

} // verus!
