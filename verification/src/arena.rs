//! The arena that strings are kept in: blocks of bytes, filled from the front.
use vstd::prelude::*;

verus! {

/// The size of an ordinary arena block. A larger allocation gets a block of its
/// own size.
pub const VARCHAR_ARENA_BLOCK_SIZE: usize = 64 * 1024;

/// A run of bytes in the arena. It stays where it is as long as the arena lives.
#[derive(Clone, Copy, PartialEq, Eq, Structural, Debug)]
pub struct ArenaSlice {
    /// The block that holds the bytes.
    pub block: usize,
    /// Where in the block they begin.
    pub offset: usize,
    /// How many they are.
    pub len: usize,
}

/// `n` zero bytes.
pub open spec fn zeros(n: nat) -> Seq<u8> {
    Seq::new(n, |i: int| 0u8)
}

/// What an arena holds: its blocks, which of them is being filled, and how much
/// of that one has been handed out.
#[verifier::ext_equal]
pub struct ArenaModel {
    pub blocks: Seq<Seq<u8>>,
    pub current: nat,
    pub offset: nat,
}

impl ArenaModel {
    /// An arena with no block, or with one empty block.
    pub open spec fn fresh(with_block: bool) -> ArenaModel {
        ArenaModel {
            blocks: if with_block {
                seq![zeros(VARCHAR_ARENA_BLOCK_SIZE as nat)]
            } else {
                seq![]
            },
            current: 0,
            offset: 0,
        }
    }

    /// The last block is the one being filled, and what has not been handed out
    /// of it is zero.
    pub open spec fn valid(self) -> bool {
        &&& self.offset <= isize::MAX
        &&& self.blocks.len() == 0 ==> self.current == 0 && self.offset == 0
        &&& self.blocks.len() > 0 ==> {
            &&& self.current == self.blocks.len() - 1
            &&& self.offset <= self.blocks[self.current as int].len()
        }
        &&& forall|b: int|
            0 <= b < self.blocks.len() ==> VARCHAR_ARENA_BLOCK_SIZE <= (
            #[trigger] self.blocks[b]).len()
        &&& forall|k: int|
            self.blocks.len() > 0 && self.offset <= k < self.blocks[self.current as int].len()
                ==> #[trigger] self.blocks[self.current as int][k] == 0
    }

    /// Whether an allocation of `size` bytes opens a new block.
    pub open spec fn opens_block(self, size: nat) -> bool {
        self.blocks.len() == 0 || self.offset + size > VARCHAR_ARENA_BLOCK_SIZE
    }

    /// Whether `slice` is what an allocation of `size` bytes hands out: the front
    /// of a new block, or else what comes next in the block being filled.
    pub open spec fn hands_out(self, size: nat, slice: ArenaSlice) -> bool {
        &&& slice.len == size
        &&& if self.opens_block(size) {
            slice.block == self.blocks.len() && slice.offset == 0
        } else {
            slice.block == self.current && slice.offset == self.offset
        }
    }

    /// The arena after an allocation of `size` bytes.
    pub open spec fn allocated(self, size: nat) -> ArenaModel {
        if self.opens_block(size) {
            let block_size = if size < VARCHAR_ARENA_BLOCK_SIZE {
                VARCHAR_ARENA_BLOCK_SIZE as nat
            } else {
                size
            };
            ArenaModel {
                blocks: self.blocks.push(zeros(block_size)),
                current: self.blocks.len(),
                offset: size,
            }
        } else {
            ArenaModel { offset: self.offset + size, ..self }
        }
    }

    /// Whether `slice` lies in a block, in front of the bytes that are still to be
    /// handed out. Every slice handed out so far does. So do the bytes that were
    /// left over at the end of a block when the next one was opened: they will
    /// not be handed out any more.
    pub open spec fn in_use(self, slice: ArenaSlice) -> bool {
        &&& slice.block < self.blocks.len()
        &&& slice.offset + slice.len <= self.blocks[slice.block as int].len()
        &&& slice.block == self.current ==> slice.offset + slice.len <= self.offset
    }

    /// Whether two slices have no byte in common.
    pub open spec fn apart(a: ArenaSlice, b: ArenaSlice) -> bool {
        a.block != b.block || a.offset + a.len <= b.offset || b.offset + b.len <= a.offset
    }

    /// The bytes of `slice`.
    pub open spec fn bytes(self, slice: ArenaSlice) -> Seq<u8> {
        self.blocks[slice.block as int].subrange(
            slice.offset as int,
            slice.offset + slice.len,
        )
    }

    /// The arena with `bytes` in the place of `slice`.
    pub open spec fn with_bytes(self, slice: ArenaSlice, bytes: Seq<u8>) -> ArenaModel {
        ArenaModel {
            blocks: self.blocks.update(
                slice.block as int,
                crate::byte_order::overwrite(
                    self.blocks[slice.block as int],
                    slice.offset as int,
                    bytes,
                ),
            ),
            ..self
        }
    }
}

} // verus!
