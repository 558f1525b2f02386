use super::content::{spec_content, Content, ContentV, Magic};
use super::stream::{spec_seek, spec_take, SliceStream};
use super::{agrees, lift, lower, then, Error, Failure, Outcome};
use crate::layout::{Layout, LayoutMap, TypeId};
use vstd::bytes::*;
use vstd::prelude::*;
use vstd::slice::slice_subrange;

verus! {

/// A USER document.
#[derive(Debug)]
pub struct User {
    /// The [Content] section in the RSZ document.
    pub content: Content,
}

impl View for User {
    type V = ContentV;

    open spec fn view(&self) -> ContentV {
        self.content@
    }
}

/// The magic value of a USER document.
pub open spec fn user_magic() -> u32 {
    0x525355
}

/// A USER document read at position `p` of `d`, for a stream whose first byte lies at
/// `global_offset` in the slice it was created from: its 40-byte header, then the content
/// section at the header's data offset, parsed as a stream of its own that starts there. The
/// stream is left at the data offset.
pub open spec fn spec_user<'a>(d: Seq<u8>, p: int, global_offset: int, layouts: Map<TypeId, Layout<'a>>) -> Outcome<ContentV> {
    then(
        spec_take(d, p, 40, "rsz::rsz::user::Header"),
        |b: Seq<u8>, p1: int|
            {
                let magic = spec_u32_from_le_bytes(b.subrange(0, 4));
                if magic != user_magic() {
                    Outcome::Fail(Error::MagicMismatch { expected: user_magic(), actual: magic }, p1)
                } else {
                    then(
                        spec_seek(d, spec_u64_from_le_bytes(b.subrange(32, 40)) as usize),
                        |u: (), p2: int|
                            if global_offset + p2 > usize::MAX {
                                Outcome::Panic
                            } else {
                                match spec_content(d.skip(p2), 0, layouts) {
                                    Outcome::Done(c, _) => Outcome::Done(c, p2),
                                    Outcome::Fail(e, _) => Outcome::Fail(e, p2),
                                    Outcome::Panic => Outcome::Panic,
                                }
                            },
                    )
                }
            },
    )
}

impl User {
    /// The magic value of a USER document.
    pub const MAGIC: Magic = 0x525355;

    /// Reads a USER document from an RSZ stream; `Failure::Panic` where the document cannot be
    /// read without aborting.
    pub fn read(data: &mut SliceStream, layout: &LayoutMap) -> (r: Result<User, Failure>)
        ensures
            final(data)@.data == old(data)@.data,
            final(data)@.global_offset == old(data)@.global_offset,
            agrees(
                spec_user(old(data)@.data, old(data)@.position, old(data)@.global_offset, layout@),
                r,
                final(data)@.position,
            ),
    {
        // The header: magic, instance count, intern count, info count, instance offset,
        // intern offset and data offset.
        let b = match data.take(40, "rsz::rsz::user::Header") {
            Ok(b) => b,
            Err(e) => return Err(e),
        };
        let magic = u32_from_le_bytes(slice_subrange(b, 0, 4));
        let data_offset = u64_from_le_bytes(slice_subrange(b, 32, 40));
        if magic != User::MAGIC {
            return Err(Failure::Error(Error::MagicMismatch { expected: User::MAGIC, actual: magic }));
        }
        match data.seek(data_offset as usize) {
            Ok(()) => {},
            Err(e) => return Err(Failure::Error(e)),
        }
        if data.global_offset() > usize::MAX - data.position() {
            return Err(Failure::Panic);
        }
        let mut relative = data.as_relative();
        match Content::read(&mut relative, layout) {
            Ok(content) => Ok(User { content }),
            Err(e) => Err(e),
        }
    }

    /// Parses an RSZ stream into a USER document.
    pub fn parse(data: &mut SliceStream, layout: &LayoutMap) -> (r: Result<User, Error>)
        requires
            !(spec_user(old(data)@.data, old(data)@.position, old(data)@.global_offset, layout@) is Panic),
        ensures
            final(data)@.data == old(data)@.data,
            final(data)@.global_offset == old(data)@.global_offset,
            agrees(
                spec_user(old(data)@.data, old(data)@.position, old(data)@.global_offset, layout@),
                lift(r),
                final(data)@.position,
            ),
    {
        lower(User::read(data, layout))
    }
}

} // verus!
