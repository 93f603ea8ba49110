//! Writer capabilities: sinks that accept text fragments and may refuse them.
use vstd::prelude::*;

verus! {

/// Relies on `String::push_str`: appends the whole of `string` to `s`.
pub assume_specification[ String::push_str ](s: &mut String, string: &str)
    ensures
        final(s)@ == old(s)@ + string@,
;

/// Relies on `String::push`: appends the one character `ch` to `s`.
pub assume_specification[ String::push ](s: &mut String, ch: char)
    ensures
        final(s)@ == old(s)@.push(ch),
;

/// The payload-free failure of the formatting domain: a writer refused a fragment.
#[derive(Debug, Clone, Copy, PartialEq, Eq)]
pub struct FmtError;

/// What a writer may have accepted of a fragment that it refused: it keeps what it
/// held before, and at most the encoding of the fragment on top of it.
pub open spec fn partial_write(before: Seq<char>, after: Seq<char>, added: Seq<char>) -> bool {
    &&& before.is_prefix_of(after)
    &&& after.is_prefix_of(before + added)
}

/// A refusal in the middle of a longer write: if the writer held `before + done` when
/// it refused `piece`, and `done + piece` begins `total`, then what it holds is a
/// partial write of `total` on top of `before`.
pub proof fn lemma_partial_write_within(
    before: Seq<char>,
    done: Seq<char>,
    after: Seq<char>,
    piece: Seq<char>,
    total: Seq<char>,
)
    requires
        partial_write(before + done, after, piece),
        (done + piece).is_prefix_of(total),
    ensures
        partial_write(before, after, total),
{
    let cur = before + done;
    assert(after.subrange(0, before.len() as int) =~= cur.subrange(0, before.len() as int));
    assert(cur.subrange(0, before.len() as int) =~= before);
    assert(before + done + piece =~= before + (done + piece));
    let full = before + total;
    assert(full.subrange(0, (before + (done + piece)).len() as int) =~= before + (done + piece));
    assert(after =~= (before + done + piece).subrange(0, after.len() as int));
    assert(after =~= full.subrange(0, after.len() as int));
}

/// A sink for text fragments in the formatting failure domain.
///
/// `text` is what the destination holds; `encode` says how a fragment is transformed
/// on its way there (the identity for a plain buffer, entity-encoding for an escaper).
pub trait Write {
    spec fn text(&self) -> Seq<char>;

    spec fn encode(s: Seq<char>) -> Seq<char>;

    /// Whether every write to this kind of writer succeeds.
    spec fn never_fails() -> bool;

    proof fn lemma_encode_append(a: Seq<char>, b: Seq<char>)
        ensures
            Self::encode(a + b) == Self::encode(a) + Self::encode(b),
    ;

    proof fn lemma_encode_empty()
        ensures
            Self::encode(Seq::empty()) == Seq::<char>::empty(),
    ;

    /// Hands one fragment to the destination: on success it holds the encoded fragment
    /// after what it held before; on failure, some prefix of that.
    fn write_str(&mut self, s: &str) -> (r: Result<(), FmtError>)
        ensures
            r is Ok ==> final(self).text() == old(self).text() + Self::encode(s@),
            r is Err ==> partial_write(old(self).text(), final(self).text(), Self::encode(s@)),
            Self::never_fails() ==> r is Ok,
    ;
}

/// An in-memory buffer: it takes every fragment as it is.
impl Write for String {
    open spec fn text(&self) -> Seq<char> {
        self@
    }

    open spec fn encode(s: Seq<char>) -> Seq<char> {
        s
    }

    open spec fn never_fails() -> bool {
        true
    }

    proof fn lemma_encode_append(a: Seq<char>, b: Seq<char>) {
    }

    proof fn lemma_encode_empty() {
    }

    fn write_str(&mut self, s: &str) -> (r: Result<(), FmtError>) {
        self.push_str(s);
        Ok(())
    }
}

/// A buffer that holds at most `capacity` characters: it refuses, whole, any
/// fragment that would not fit.
pub struct BoundedBuffer {
    buf: String,
    used: usize,
    capacity: usize,
}

impl BoundedBuffer {
    /// The number of characters this buffer can hold.
    pub closed spec fn spec_capacity(&self) -> nat {
        self.capacity as nat
    }

    pub closed spec fn wf(&self) -> bool {
        self.used == self.buf@.len() && self.used <= self.capacity
    }

    /// A well-formed buffer holds no more than its capacity.
    pub proof fn lemma_fits(&self)
        requires
            self.wf(),
        ensures
            self.text().len() <= self.spec_capacity(),
    {
    }

    /// An empty buffer with room for `capacity` characters.
    pub fn new(capacity: usize) -> (r: BoundedBuffer)
        ensures
            r.wf(),
            r.text() == Seq::<char>::empty(),
            r.spec_capacity() == capacity,
    {
        BoundedBuffer { buf: String::new(), used: 0, capacity }
    }

    /// What the buffer holds.
    pub fn contents(&self) -> (r: &str)
        ensures
            r@ == self.text(),
    {
        self.buf.as_str()
    }
}

impl Write for BoundedBuffer {
    closed spec fn text(&self) -> Seq<char> {
        self.buf@
    }

    open spec fn encode(s: Seq<char>) -> Seq<char> {
        s
    }

    open spec fn never_fails() -> bool {
        false
    }

    proof fn lemma_encode_append(a: Seq<char>, b: Seq<char>) {
    }

    proof fn lemma_encode_empty() {
    }

    fn write_str(&mut self, s: &str) -> (r: Result<(), FmtError>)
        ensures
            old(self).wf() ==> final(self).wf(),
            final(self).spec_capacity() == old(self).spec_capacity(),
            old(self).wf() ==> (r is Ok <==> old(self).text().len() + s@.len() <= old(self).spec_capacity()),
            r is Err ==> final(self).text() == old(self).text(),
    {
        let n = s.unicode_len();
        if self.used > self.capacity || n > self.capacity - self.used {
            return Err(FmtError);
        }
        self.buf.push_str(s);
        self.used = self.used + n;
        Ok(())
    }
}

/// The category of an I/O failure.
#[derive(Debug, Clone, Copy, PartialEq, Eq)]
pub enum IoErrorKind {
    /// The destination refused output for a reason this layer cannot name.
    OtherIoError,
}

/// A failure in the I/O domain: a category, a fixed description and optional detail.
#[derive(Debug, PartialEq, Eq)]
pub struct IoError {
    pub kind: IoErrorKind,
    pub desc: &'static str,
    pub detail: Option<String>,
}

} // verus!
