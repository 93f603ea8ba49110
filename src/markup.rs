//! Deferred, replayable rendering.
use vstd::prelude::*;
use crate::entities::escaped;
use crate::rt::Escaper;
use crate::writer::{partial_write, BoundedBuffer, FmtError, IoError, IoErrorKind, Write};

verus! {

/// The concatenation of a sequence of fragments, in order.
pub open spec fn joined(frags: Seq<Seq<char>>) -> Seq<char>
    decreases frags.len(),
{
    if frags.len() == 0 {
        Seq::empty()
    } else {
        joined(frags.drop_last()) + frags.last()
    }
}

/// Writing `frags` to a writer of kind `W` stopped at fragment `n`: the writer took
/// every fragment before `n` whole, then refused fragment `n`, of which it may hold a part.
pub open spec fn stopped_at<W: Write>(
    before: Seq<char>,
    after: Seq<char>,
    frags: Seq<Seq<char>>,
    n: int,
) -> bool {
    &&& 0 <= n < frags.len()
    &&& partial_write(before + W::encode(joined(frags.take(n))), after, W::encode(frags[n]))
}

/// One more fragment extends the concatenation at its end.
pub proof fn lemma_joined_take(frags: Seq<Seq<char>>, i: int)
    requires
        0 <= i < frags.len(),
    ensures
        joined(frags.take(i + 1)) == joined(frags.take(i)) + frags[i],
{
    assert(frags.take(i + 1).drop_last() =~= frags.take(i));
}

/// A deferred rendering operation: it writes a fixed sequence of fragments, in order,
/// into whatever writer it is handed, and stops at the first refusal.
pub trait Render {
    /// The fragments this operation writes, in order.
    spec fn fragments(&self) -> Seq<Seq<char>>;

    fn render_to<W: Write>(&self, w: &mut W) -> (r: Result<(), FmtError>)
        ensures
            r is Ok ==> final(w).text() == old(w).text() + W::encode(joined(self.fragments())),
            r is Err ==> exists|n: int|
                stopped_at::<W>(old(w).text(), final(w).text(), self.fragments(), n),
            W::never_fails() ==> r is Ok,
    ;
}

/// One step of a compiled template.
pub enum Piece {
    /// Text written as it is: literal markup, or a pre-escaped value.
    Raw(String),
    /// A value written through an escaper.
    Escaped(String),
}

impl Piece {
    /// The fragment this step hands to the writer.
    pub open spec fn fragment(&self) -> Seq<char> {
        match self {
            Piece::Raw(s) => s@,
            Piece::Escaped(s) => escaped(s@),
        }
    }
}

/// A rendering operation given as a list of steps.
pub struct Template {
    pub pieces: Vec<Piece>,
}

impl Render for Template {
    open spec fn fragments(&self) -> Seq<Seq<char>> {
        self.pieces@.map_values(|p: Piece| p.fragment())
    }

    fn render_to<W: Write>(&self, w: &mut W) -> (r: Result<(), FmtError>) {
        let ghost start = w.text();
        let ghost frags = self.fragments();
        proof {
            W::lemma_encode_empty();
            assert(frags.take(0) =~= Seq::<Seq<char>>::empty());
            assert(start + W::encode(Seq::empty()) =~= start);
        }
        let mut i: usize = 0;
        while i < self.pieces.len()
            invariant
                i <= self.pieces.len(),
                frags == self.fragments(),
                start == old(w).text(),
                w.text() == start + W::encode(joined(frags.take(i as int))),
            decreases self.pieces.len() - i,
        {
            assert(frags[i as int] == self.pieces@[i as int].fragment());
            let r = match &self.pieces[i] {
                Piece::Raw(s) => w.write_str(s.as_str()),
                Piece::Escaped(s) => Escaper::new(w).write_str(s.as_str()),
            };
            proof {
                lemma_joined_take(frags, i as int);
                W::lemma_encode_append(joined(frags.take(i as int)), frags[i as int]);
            }
            if r.is_err() {
                assert(stopped_at::<W>(start, w.text(), frags, i as int));
                return r;
            }
            i = i + 1;
        }
        assert(frags.take(i as int) =~= frags);
        Ok(())
    }
}

/// A complete piece of output whose text is produced only when it is rendered, as
/// often as needed and into any writer.
pub struct Markup<R: Render> {
    op: R,
}

impl<R: Render> Markup<R> {
    /// The fragments a render writes, in order.
    pub closed spec fn fragments(&self) -> Seq<Seq<char>> {
        self.op.fragments()
    }

    /// Renders into `w`, reporting a refused fragment in the I/O domain: as an
    /// `OtherIoError` described as "formatting error", with no detail.
    pub fn render<W: Write>(&self, w: &mut W) -> (r: Result<(), IoError>)
        ensures
            r is Ok ==> final(w).text() == old(w).text() + W::encode(joined(self.fragments())),
            r is Err ==> exists|n: int|
                stopped_at::<W>(old(w).text(), final(w).text(), self.fragments(), n),
            r matches Err(e) ==> {
                &&& e.kind == IoErrorKind::OtherIoError
                &&& e.desc@ == "formatting error"@
                &&& e.detail is None
            },
            W::never_fails() ==> r is Ok,
    {
        match self.render_fmt(w) {
            Ok(()) => Ok(()),
            Err(_) => Err(IoError { kind: IoErrorKind::OtherIoError, desc: "formatting error", detail: None }),
        }
    }

    /// Renders into a formatting writer: the fragments in order, stopping at the
    /// first refusal.
    pub fn render_fmt<W: Write>(&self, w: &mut W) -> (r: Result<(), FmtError>)
        ensures
            r is Ok ==> final(w).text() == old(w).text() + W::encode(joined(self.fragments())),
            r is Err ==> exists|n: int|
                stopped_at::<W>(old(w).text(), final(w).text(), self.fragments(), n),
            W::never_fails() ==> r is Ok,
    {
        let r = self.op.render_to(w);
        proof {
            if r is Err {
                let n = choose|n: int| stopped_at::<W>(old(w).text(), w.text(), self.op.fragments(), n);
                assert(stopped_at::<W>(old(w).text(), w.text(), self.fragments(), n));
            }
        }
        r
    }

    /// Renders into a fresh buffer and returns its text.
    pub fn to_string(&self) -> (r: String)
        ensures
            r@ == joined(self.fragments()),
    {
        let mut buf = String::new();
        let _ = self.render_fmt(&mut buf);
        buf
    }
}

/// Wraps a rendering operation, taking ownership of it.
pub fn make_markup<R: Render>(f: R) -> (r: Markup<R>)
    ensures
        r.fragments() == f.fragments(),
{
    Markup { op: f }
}

/// Materialising a markup is repeatable: any two texts that `to_string` may return
/// for one markup are equal.
pub proof fn lemma_text_repeatable<R: Render>(m: &Markup<R>, first: Seq<char>, second: Seq<char>)
    requires
        first == joined(m.fragments()),
        second == joined(m.fragments()),
    ensures
        first == second,
{
}

/// Replay consistency: two completed renders of one markup, into writers of any two
/// kinds that pass text through unchanged, add the same text to each.
pub proof fn lemma_replay_consistent<R: Render, V: Write, W: Write>(
    m: &Markup<R>,
    v_before: Seq<char>,
    v_after: Seq<char>,
    w_before: Seq<char>,
    w_after: Seq<char>,
)
    requires
        forall|s: Seq<char>| V::encode(s) == s,
        forall|s: Seq<char>| W::encode(s) == s,
        v_after == v_before + V::encode(joined(m.fragments())),
        w_after == w_before + W::encode(joined(m.fragments())),
    ensures
        v_after.skip(v_before.len() as int) == joined(m.fragments()),
        v_after.skip(v_before.len() as int) == w_after.skip(w_before.len() as int),
{
    assert(v_after.skip(v_before.len() as int) =~= joined(m.fragments()));
    assert(w_after.skip(w_before.len() as int) =~= joined(m.fragments()));
}

/// Fail-fast: when writing stopped at fragment `n`, the writer holds every fragment
/// before `n` and nothing of any fragment after `n`.
pub proof fn lemma_fail_fast<W: Write>(
    before: Seq<char>,
    after: Seq<char>,
    frags: Seq<Seq<char>>,
    n: int,
)
    requires
        stopped_at::<W>(before, after, frags, n),
    ensures
        (before + W::encode(joined(frags.take(n)))).is_prefix_of(after),
        after.is_prefix_of(before + W::encode(joined(frags.take(n + 1)))),
{
    lemma_joined_take(frags, n);
    W::lemma_encode_append(joined(frags.take(n)), frags[n]);
    assert(before + W::encode(joined(frags.take(n))) + W::encode(frags[n])
        =~= before + W::encode(joined(frags.take(n + 1))));
}

/// A bounded buffer cannot complete a render whose text does not fit: whatever a
/// well-formed buffer holds after the render, it is not the whole text on top of what
/// it held before, so the render returned a failure.
pub proof fn lemma_overflow_fails<R: Render>(m: &Markup<R>, before: Seq<char>, after: BoundedBuffer)
    requires
        after.wf(),
        before.len() + joined(m.fragments()).len() > after.spec_capacity(),
    ensures
        after.text() != before + BoundedBuffer::encode(joined(m.fragments())),
{
    after.lemma_fits();
}

} // verus!
