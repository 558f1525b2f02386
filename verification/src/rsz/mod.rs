use crate::layout::{FieldKind, LayoutMap, TypeId};
use content::{ContentV, Magic};
use stream::{spec_read_u32, spec_seek, SliceStream};
use user::{spec_user, user_magic, User};
use vstd::prelude::*;

pub mod content;
pub mod laws;
pub mod stream;
pub mod user;

verus! {

/// Errors reported while reading an RSZ document.
#[derive(Debug, Clone, Copy, PartialEq, Eq)]
pub enum Error {
    /// The magic value at the start of the document names no supported document type.
    UnrecognizedMagic(u32),
    /// A section did not start with the magic value it must start with.
    MagicMismatch { expected: u32, actual: u32 },
    /// An instance names a type that the layout map does not define.
    UnknownLayoutId(TypeId),
    /// A seek or an alignment moved past the end of the stream.
    UnexpectedEof { position: usize, length: usize },
    /// A field has a type that cannot be parsed yet.
    UnimplementedFieldType(FieldKind),
    /// An instance reference points past the instances parsed so far.
    ObjectNotFound(usize),
    /// Fewer bytes remain in the stream than the section being read needs.
    InvalidSection { section: &'static str, length: usize },
}

/// How a parsing step that did not succeed ended: with an [`Error`], or on an input on which
/// parsing aborts the program (an alignment of zero, an arithmetic overflow, a read or an index
/// out of bounds, or a missing interned string).
#[derive(Debug, Clone, Copy, PartialEq, Eq)]
pub enum Failure {
    Error(Error),
    Panic,
}

/// The meaning of a parsing step over the bytes of a stream: the value read and the position
/// that the stream is left at, the error reported and the position the stream is left at, or an
/// abort.
pub enum Outcome<T> {
    Done(T, int),
    Fail(Error, int),
    Panic,
}

/// A successful step whose value is mapped by `f`; other outcomes are kept.
pub open spec fn map_done<A, B>(o: Outcome<A>, f: spec_fn(A) -> B) -> Outcome<B> {
    match o {
        Outcome::Done(v, p) => Outcome::Done(f(v), p),
        Outcome::Fail(e, p) => Outcome::Fail(e, p),
        Outcome::Panic => Outcome::Panic,
    }
}

/// A step followed by `f`, which is given the value and the position that the step reached.
pub open spec fn then<A, B>(o: Outcome<A>, f: spec_fn(A, int) -> Outcome<B>) -> Outcome<B> {
    match o {
        Outcome::Done(v, p) => f(v, p),
        Outcome::Fail(e, p) => Outcome::Fail(e, p),
        Outcome::Panic => Outcome::Panic,
    }
}

/// An executable result, together with the position the stream is left at, matches an outcome.
pub open spec fn agrees<T: View>(o: Outcome<T::V>, r: Result<T, Failure>, pos: int) -> bool {
    match r {
        Ok(v) => o == Outcome::Done(v@, pos),
        Err(Failure::Error(e)) => o == Outcome::Fail::<T::V>(e, pos),
        Err(Failure::Panic) => o is Panic,
    }
}

/// An executable result matches an outcome, its value taken by `f`.
pub open spec fn agrees_by<T, V>(o: Outcome<V>, r: Result<T, Failure>, f: spec_fn(T) -> V, pos: int) -> bool {
    match r {
        Ok(v) => o == Outcome::Done(f(v), pos),
        Err(Failure::Error(e)) => o == Outcome::Fail::<V>(e, pos),
        Err(Failure::Panic) => o is Panic,
    }
}

/// An executable result matches an outcome, whatever position the outcome ends at.
pub open spec fn settles<T: View>(o: Outcome<T::V>, r: Result<T, Failure>) -> bool {
    match r {
        Ok(v) => o matches Outcome::Done(w, _) && w == v@,
        Err(Failure::Error(e)) => o matches Outcome::Fail(f, _) && f == e,
        Err(Failure::Panic) => o is Panic,
    }
}

/// An error result seen as a failure.
pub open spec fn lift<T>(r: Result<T, Error>) -> Result<T, Failure> {
    match r {
        Ok(v) => Ok(v),
        Err(e) => Err(Failure::Error(e)),
    }
}

/// The number of times a loop `for _ in 0..n` runs.
pub open spec fn count(n: i32) -> nat {
    if n > 0 {
        n as nat
    } else {
        0
    }
}

/// The absolute value of a signed 32-bit integer, as the index it selects.
pub open spec fn abs_index(n: i32) -> int {
    if n < 0 {
        -(n as int)
    } else {
        n as int
    }
}

/// Computes `n.unsigned_abs() as usize`.
pub(crate) fn unsigned_abs(n: i32) -> (r: usize)
    ensures
        r as int == abs_index(n),
{
    if n < 0 {
        let m: i64 = -(n as i64);
        m as usize
    } else {
        n as usize
    }
}

/// Maps a result that cannot have panicked to an error result.
pub(crate) fn lower<T>(r: Result<T, Failure>) -> (out: Result<T, Error>)
    requires
        !(r matches Err(Failure::Panic)),
    ensures
        lift(out) == r,
{
    match r {
        Ok(v) => Ok(v),
        Err(Failure::Error(e)) => Err(e),
        Err(Failure::Panic) => vstd::pervasive::unreached(),
    }
}

} // verus!

verus! {

/// `n` repetitions of `step`, each given the value accumulated so far and the position reached,
/// starting from `init` at position `p`. The first step that does not succeed ends the
/// repetition.
pub open spec fn repeat<S>(step: spec_fn(S, int) -> Outcome<S>, init: S, p: int, n: nat) -> Outcome<S>
    decreases n,
{
    if n == 0 {
        Outcome::Done(init, p)
    } else {
        match repeat(step, init, p, (n - 1) as nat) {
            Outcome::Done(acc, q) => step(acc, q),
            Outcome::Fail(e, q) => Outcome::Fail(e, q),
            Outcome::Panic => Outcome::Panic,
        }
    }
}

/// Once a repetition has stopped, further repetitions end the same way.
pub proof fn lemma_repeat_stops<S>(
    step: spec_fn(S, int) -> Outcome<S>,
    init: S,
    p: int,
    k: nat,
    n: nat,
)
    requires
        k <= n,
        !(repeat(step, init, p, k) is Done),
    ensures
        repeat(step, init, p, n) == repeat(step, init, p, k),
    decreases n,
{
    if n > k {
        lemma_repeat_stops(step, init, p, k, (n - 1) as nat);
    }
}

} // verus!

verus! {

/// Represents any supported type of RSZ document.
#[derive(Debug)]
pub enum Rsz {
    User(User),
}

/// The mathematical model of an [`Rsz`] document.
pub enum RszV {
    User(ContentV),
}

impl View for Rsz {
    type V = RszV;

    open spec fn view(&self) -> RszV {
        match self {
            Rsz::User(u) => RszV::User(u@),
        }
    }
}

/// A document of the type named by its leading magic value, read from `d`.
pub open spec fn spec_rsz<'a>(d: Seq<u8>, layouts: Map<TypeId, crate::layout::Layout<'a>>) -> Outcome<RszV> {
    then(
        spec_read_u32(d, 0, "u32"),
        |magic: u32, p1: int|
            then(
                spec_seek(d, 0),
                |u: (), p2: int|
                    if magic == user_magic() {
                        map_done(spec_user(d, 0, 0, layouts), |c: ContentV| RszV::User(c))
                    } else {
                        Outcome::Fail(Error::UnrecognizedMagic(magic), p2)
                    },
            ),
    )
}

impl Rsz {
    /// Reads an RSZ document from its bytes, its type inferred from the magic 4-byte sequence at
    /// its start; `Failure::Panic` where the document cannot be read without aborting.
    pub fn read(data: &[u8], layout: &LayoutMap) -> (r: Result<Rsz, Failure>)
        ensures
            settles(spec_rsz(data@, layout@), r),
    {
        let mut stream = SliceStream::from(data);
        let magic: Magic = match stream.next_u32("u32") {
            Ok(m) => m,
            Err(e) => return Err(e),
        };
        // Reset the stream so document parsing begins at the top of the data.
        match stream.seek(0) {
            Ok(()) => {},
            Err(e) => return Err(Failure::Error(e)),
        }
        if magic == User::MAGIC {
            match User::read(&mut stream, layout) {
                Ok(u) => Ok(Rsz::User(u)),
                Err(e) => Err(e),
            }
        } else {
            Err(Failure::Error(Error::UnrecognizedMagic(magic)))
        }
    }

    /// Reads an RSZ document from its bytes. The document type is inferred from the magic
    /// 4-byte sequence at its start.
    pub fn read_from(data: &[u8], layout: &LayoutMap) -> (r: Result<Rsz, Error>)
        requires
            !(spec_rsz(data@, layout@) is Panic),
        ensures
            settles(spec_rsz(data@, layout@), lift(r)),
    {
        lower(Rsz::read(data, layout))
    }
}

} // verus!
