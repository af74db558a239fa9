//! A file that is mapped into memory, as something to read, write and seek in.
//! Both reading and writing begin at the start of the map; the position that is
//! sought is only reported.

use vstd::prelude::*;
use vstd::slice::slice_subrange;

verus! {

/// Where to go, and counted from what.
#[derive(Clone, Copy, Debug, PartialEq, Eq, Structural)]
pub enum SeekFrom {
    Start(u64),
    End(i64),
    Current(i64),
}

/// A position before the start of the map, or beyond what a position can say.
#[derive(Clone, Copy, Debug, PartialEq, Eq, Structural)]
pub struct InvalidSeek;

/// The map had no room for all bytes of a write.
#[derive(Clone, Copy, Debug, PartialEq, Eq, Structural)]
pub struct WriteZero;

/// The positions of a map.
#[derive(Clone, Copy, Debug, PartialEq, Eq, Structural)]
pub struct MemMap {
    /// Where the last successful seek went.
    pub position: u64,
    /// What is reported of the last seek.
    pub seek_pos: u64,
}

/// The smaller one of two numbers.
pub open spec fn smaller(a: int, b: int) -> int {
    if a <= b {
        a
    } else {
        b
    }
}

/// What a read with room for `room` bytes gives.
pub open spec fn map_read(map: Seq<u8>, room: int) -> Seq<u8> {
    map.take(smaller(map.len() as int, room))
}

/// What a write makes of a map.
pub open spec fn map_written(map: Seq<u8>, bytes: Seq<u8>) -> Seq<u8> {
    let len = smaller(map.len() as int, bytes.len() as int);
    bytes.take(len) + map.skip(len)
}

/// Where a seek goes in a map of this length, from this position.
pub open spec fn sought(len: int, position: int, from: SeekFrom) -> int {
    match from {
        SeekFrom::Start(n) => n as int,
        SeekFrom::End(n) => len + n,
        SeekFrom::Current(n) => position + n,
    }
}

impl MemMap {
    /// The positions of a map in which nothing has been sought.
    pub fn new() -> (res: Self)
        ensures
            res.position == 0,
            res.seek_pos == 0,
    {
        MemMap { position: 0, seek_pos: 0 }
    }

    /// Reads from the start of the map as many bytes as there is room for.
    pub fn poll_read(map: &[u8], room: usize) -> (res: &[u8])
        ensures
            res@ == map_read(map@, room as int),
            res@.len() == (if map@.len() <= room {
                map@.len()
            } else {
                room as nat
            }),
            forall|i: int| 0 <= i < res@.len() ==> #[trigger] res@[i] == map@[i],
    {
        let len = if map.len() <= room {
            map.len()
        } else {
            room
        };
        assert(map@.subrange(0, len as int) =~= map_read(map@, room as int));
        slice_subrange(map, 0, len)
    }

    /// Writes as many bytes to the start of the map as it has room for.
    pub fn poll_write(map: &mut [u8], bytes: &[u8]) -> (res: Result<usize, WriteZero>)
        ensures
            final(map)@ == map_written(old(map)@, bytes@),
            final(map)@.len() == old(map)@.len(),
            forall|i: int|
                0 <= i < old(map)@.len() ==> #[trigger] final(map)@[i] == (if i < bytes@.len() {
                    bytes@[i]
                } else {
                    old(map)@[i]
                }),
            match res {
                Ok(len) => bytes@.len() <= old(map)@.len() && len == bytes@.len(),
                Err(_) => bytes@.len() > old(map)@.len(),
            },
    {
        let ghost before = map@;
        let len = if map.len() <= bytes.len() {
            map.len()
        } else {
            bytes.len()
        };
        let mut i: usize = 0;
        while i < len
            invariant
                i <= len <= bytes@.len(),
                len <= before.len(),
                map@ == bytes@.take(i as int) + before.skip(i as int),
            decreases len - i,
        {
            map[i] = bytes[i];
            i += 1;
            assert(map@ =~= bytes@.take(i as int) + before.skip(i as int));
        }
        if len < bytes.len() {
            Err(WriteZero)
        } else {
            Ok(len)
        }
    }

    /// Goes to a position in a map of this length. It may lie beyond the end.
    pub fn start_seek(&mut self, len: usize, from: SeekFrom) -> (res: Result<(), InvalidSeek>)
        ensures
            match res {
                Ok(_) => {
                    let target = sought(len as int, old(self).position as int, from);
                    &&& 0 <= target <= u64::MAX
                    &&& final(self).position == target
                    &&& final(self).seek_pos == target
                },
                Err(_) => {
                    let target = sought(len as int, old(self).position as int, from);
                    &&& !(0 <= target <= u64::MAX)
                    &&& *final(self) == *old(self)
                },
            },
            ({
                let target = match from {
                    SeekFrom::Start(n) => n as int,
                    SeekFrom::End(n) => len + n,
                    SeekFrom::Current(n) => old(self).position + n,
                };
                if 0 <= target <= u64::MAX {
                    res is Ok && final(self).position == target && final(self).seek_pos == target
                } else {
                    res is Err && *final(self) == *old(self)
                }
            }),
    {
        let target: i128 = match from {
            SeekFrom::Start(n) => n as i128,
            SeekFrom::End(n) => len as i128 + n as i128,
            SeekFrom::Current(n) => self.position as i128 + n as i128,
        };
        if target < 0 || target > u64::MAX as i128 {
            return Err(InvalidSeek);
        }
        self.position = target as u64;
        self.seek_pos = target as u64;
        Ok(())
    }

    /// Where the last successful seek went.
    pub fn poll_complete(&self) -> (res: u64)
        ensures
            res == self.seek_pos,
    {
        self.seek_pos
    }
}

/// What has been written can be read back, if the map had room for it.
pub proof fn law_write_is_read_back(map: Seq<u8>, bytes: Seq<u8>)
    requires
        bytes.len() <= map.len(),
    ensures
        map_read(map_written(map, bytes), bytes.len() as int) == bytes,
{
    assert(map_read(map_written(map, bytes), bytes.len() as int) =~= bytes);
}

/// A write takes the place of the one before, as far as it reaches.
pub proof fn law_last_write_wins(map: Seq<u8>, first: Seq<u8>, second: Seq<u8>)
    requires
        first.len() <= second.len(),
    ensures
        map_written(map_written(map, first), second) == map_written(map, second),
{
    assert(map_written(map_written(map, first), second) =~= map_written(map, second));
}

/// A write leaves the length of the map and all that lies behind it.
pub proof fn law_write_keeps_the_rest(map: Seq<u8>, bytes: Seq<u8>, i: int)
    requires
        bytes.len() <= i < map.len(),
    ensures
        map_written(map, bytes).len() == map.len(),
        map_written(map, bytes)[i] == map[i],
{
}

} // verus!
