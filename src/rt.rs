//! The entry points that compiled templates call.
use vstd::prelude::*;
pub use crate::markup::make_markup;
use crate::entities::{entity, escaped, lemma_escaped_append};
use crate::writer::{lemma_partial_write_within, partial_write, FmtError, Write};
use vstd::std_specs::iter::IteratorSpec;
use vstd::string::to_string_from_display_ensures;

verus! {

/// `t` is the text that `value`'s `Display` implementation produces.
pub open spec fn displays_as<T: core::fmt::Display + ?Sized>(value: &T, t: Seq<char>) -> bool {
    exists|s: String| to_string_from_display_ensures::<T>(value, s) && s@ == t
}

/// Writes the display text of `value` to `w`, unescaped, as one fragment.
pub fn write_fmt<W: Write, T: core::fmt::Display + ?Sized>(w: &mut W, value: &T) -> (r: Result<(), FmtError>)
    ensures
        exists|t: Seq<char>|
            {
                &&& displays_as(value, t)
                &&& r is Ok ==> final(w).text() == old(w).text() + W::encode(t)
                &&& r is Err ==> partial_write(old(w).text(), final(w).text(), W::encode(t))
            },
        W::never_fails() ==> r is Ok,
{
    let text = value.to_string();
    let r = w.write_str(text.as_str());
    assert(displays_as(value, text@));
    r
}

/// A writer that entity-encodes the five HTML-special characters of every fragment
/// and forwards the result, character by character, to the writer it borrows.
pub struct Escaper<'a, W: Write> {
    pub inner: &'a mut W,
}

impl<'a, W: Write> Escaper<'a, W> {
    /// An escaper in front of `inner`.
    pub fn new(inner: &'a mut W) -> (r: Escaper<'a, W>)
        ensures
            *r.inner == *old(inner),
            *final(inner) == *final(r.inner),
    {
        Escaper { inner }
    }
}

/// Escaping the first `i` characters and then character `i` escapes the first `i + 1`,
/// and that is the start of escaping the whole sequence.
proof fn lemma_escaped_prefix<W: Write>(s: Seq<char>, i: int)
    requires
        0 <= i < s.len(),
    ensures
        W::encode(escaped(s.take(i))) + W::encode(entity(s[i])) == W::encode(escaped(s.take(i + 1))),
        W::encode(escaped(s.take(i + 1))).is_prefix_of(W::encode(escaped(s))),
{
    assert(s.take(i + 1).drop_last() =~= s.take(i));
    W::lemma_encode_append(escaped(s.take(i)), entity(s[i]));
    assert(s.take(i + 1) + s.skip(i + 1) =~= s);
    lemma_escaped_append(s.take(i + 1), s.skip(i + 1));
    W::lemma_encode_append(escaped(s.take(i + 1)), escaped(s.skip(i + 1)));
    let p = W::encode(escaped(s.take(i + 1)));
    let q = W::encode(escaped(s.skip(i + 1)));
    assert((p + q).subrange(0, p.len() as int) =~= p);
}

impl<'a, W: Write> Write for Escaper<'a, W> {
    open spec fn text(&self) -> Seq<char> {
        self.inner.text()
    }

    open spec fn encode(s: Seq<char>) -> Seq<char> {
        W::encode(escaped(s))
    }

    open spec fn never_fails() -> bool {
        W::never_fails()
    }

    proof fn lemma_encode_append(a: Seq<char>, b: Seq<char>) {
        lemma_escaped_append(a, b);
        W::lemma_encode_append(escaped(a), escaped(b));
    }

    proof fn lemma_encode_empty() {
        W::lemma_encode_empty();
    }

    fn write_str(&mut self, s: &str) -> (r: Result<(), FmtError>)
        ensures
            *final(final(self).inner) == *final(old(self).inner),
    {
        write_escaped(self.inner, s)
    }
}

/// Writes `s` to `w` one table entry per character, stopping at the first refusal.
fn write_escaped<W: Write>(w: &mut W, s: &str) -> (r: Result<(), FmtError>)
    ensures
        r is Ok ==> final(w).text() == old(w).text() + W::encode(escaped(s@)),
        r is Err ==> partial_write(old(w).text(), final(w).text(), W::encode(escaped(s@))),
        W::never_fails() ==> r is Ok,
{
    broadcast use vstd::string::axiom_spec_iter, vstd::string::next_postcondition;

    let ghost start = w.text();
    let ghost all = s@;
    proof {
        W::lemma_encode_empty();
        assert(all.take(0) =~= Seq::<char>::empty());
        assert(start + W::encode(Seq::empty()) =~= start);
    }
    let mut chars = s.chars();
    let ghost mut i: int = 0;
    loop
        invariant
            0 <= i <= all.len(),
            start == old(w).text(),
            all == s@,
            w.text() == start + W::encode(escaped(all.take(i))),
            chars.remaining() == all.skip(i),
            chars.obeys_prophetic_iter_laws(),
        decreases all.len() - i,
    {
        let c = match chars.next() {
            Some(c) => c,
            None => {
                assert(all.take(i) =~= all);
                return Ok(());
            },
        };
        proof {
            assert(all.skip(i)[0] == all[i]);
            lemma_escaped_prefix::<W>(all, i);
            reveal_strlit("&amp;");
            reveal_strlit("&lt;");
            reveal_strlit("&gt;");
            reveal_strlit("&quot;");
            reveal_strlit("&#39;");
        }
        let mut one = String::new();
        let piece: &str = match c {
            '&' => "&amp;",
            '<' => "&lt;",
            '>' => "&gt;",
            '"' => "&quot;",
            '\'' => "&#39;",
            _ => {
                one.push(c);
                one.as_str()
            },
        };
        assert(piece@ =~= entity(c));
        let r = w.write_str(piece);
        if r.is_err() {
            proof {
                lemma_partial_write_within(
                    start,
                    W::encode(escaped(all.take(i))),
                    w.text(),
                    W::encode(entity(c)),
                    W::encode(escaped(all)),
                );
            }
            return r;
        }
        proof {
            assert(all.skip(i).drop_first() =~= all.skip(i + 1));
            i = i + 1;
        }
    }
}

} // verus!
