//! The filesystem plugins, and the byte-range arithmetic they share.
use vstd::prelude::*;

pub mod kvfs;
pub mod httpfs;
pub mod hellofs;
pub mod devfs;
pub mod heartbeatfs;

verus! {

/// The first byte that a read at `offset` returns (negative offsets read from the start).
pub open spec fn read_start(offset: i64) -> int {
    if offset < 0 {
        0
    } else {
        offset as int
    }
}

/// The bytes that a read of `size` bytes at `offset` returns from `d`: from the start
/// offset up to `offset + size` or the end, whichever comes first (to the end when `size`
/// is negative); nothing when the start lies at or past the end.
pub open spec fn read_range_spec(d: Seq<u8>, offset: i64, size: i64) -> Seq<u8> {
    let start = read_start(offset);
    if start >= d.len() {
        Seq::empty()
    } else {
        let end: int = if size < 0 || offset + size >= d.len() {
            d.len() as int
        } else {
            offset + size
        };
        d.subrange(start, end)
    }
}

/// A read can be served from `len` bytes: `offset + size` does not overflow, and when
/// the read starts inside the data it does not end before the data's start.
pub open spec fn read_args_ok(offset: i64, size: i64, len: nat) -> bool {
    size < 0 || (offset + size <= i64::MAX && (offset + size >= 0 || read_start(offset) >= len))
}

/// The bytes of a `read` of `size` bytes at `offset` within `data`.
pub fn read_range(data: &[u8], offset: i64, size: i64) -> (r: Vec<u8>)
    requires
        read_args_ok(offset, size, data@.len()),
    ensures
        r@ == read_range_spec(data@, offset, size),
{
    let len = data.len();
    let start: i64 = if offset < 0 {
        0
    } else {
        offset
    };
    if (start as u64) >= (len as u64) {
        proof {
            assert(r_empty(data@, offset, size));
        }
        return Vec::new();
    }
    let s = start as usize;
    let e: usize = if size < 0 {
        len
    } else {
        let x: i64 = offset + size;
        if (x as u64) >= (len as u64) {
            len
        } else {
            x as usize
        }
    };
    let mut out: Vec<u8> = Vec::new();
    let mut i: usize = s;
    while i < e
        invariant
            s <= i <= e,
            e <= data@.len(),
            out@ == data@.subrange(s as int, i as int),
        decreases e - i,
    {
        out.push(data[i]);
        i = i + 1;
        proof {
            assert(out@ =~= data@.subrange(s as int, i as int));
        }
    }
    out
}

spec fn r_empty(d: Seq<u8>, offset: i64, size: i64) -> bool {
    read_range_spec(d, offset, size) == Seq::<u8>::empty()
}

/// The content of a file after writing `data` into `d`: at the end when appending;
/// past the end after zero padding up to `offset`; otherwise over the bytes from
/// `offset` on, keeping those after the written range and growing the file where the
/// range runs past its end.
pub open spec fn write_spec(d: Seq<u8>, data: Seq<u8>, offset: i64, append: bool) -> Seq<u8> {
    if append {
        d + data
    } else if offset >= d.len() {
        d + Seq::new((offset - d.len()) as nat, |i: int| 0u8) + data
    } else {
        d.subrange(0, offset as int) + data + tail_after(d, offset + data.len())
    }
}

/// The bytes of `d` from `end` on (nothing when `end` is at or past its end).
pub open spec fn tail_after(d: Seq<u8>, end: int) -> Seq<u8> {
    if end < d.len() {
        d.subrange(end, d.len() as int)
    } else {
        Seq::empty()
    }
}

/// A write of `n` bytes at `offset` into `len` bytes can be performed: the result fits
/// in memory and the offset is not negative.
pub open spec fn write_args_ok(len: nat, n: nat, offset: i64, append: bool) -> bool {
    if append {
        len + n <= usize::MAX
    } else {
        0 <= offset && offset + n <= usize::MAX
    }
}

/// Writes `data` into `entry` as [`write_spec`] describes.
pub fn apply_write(entry: &mut Vec<u8>, data: &[u8], offset: i64, append: bool)
    requires
        write_args_ok(old(entry)@.len(), data@.len(), offset, append),
    ensures
        final(entry)@ == write_spec(old(entry)@, data@, offset, append),
{
    let len = entry.len();
    if append || (offset as u64) >= (len as u64) {
        if !append {
            let target = offset as usize;
            while entry.len() < target
                invariant
                    len == old(entry)@.len(),
                    len <= entry@.len() <= target,
                    entry@.subrange(0, len as int) == old(entry)@,
                    forall|k: int| len <= k < entry@.len() ==> entry@[k] == 0u8,
                decreases target - entry.len(),
            {
                entry.push(0u8);
                proof {
                    assert(entry@.subrange(0, len as int) =~= old(entry)@);
                }
            }
        }
        let ghost padded = entry@;
        let mut i: usize = 0;
        while i < data.len()
            invariant
                i <= data@.len(),
                entry@ == padded + data@.subrange(0, i as int),
                padded.len() + data@.len() <= usize::MAX,
            decreases data.len() - i,
        {
            entry.push(data[i]);
            i = i + 1;
            proof {
                assert(entry@ =~= padded + data@.subrange(0, i as int));
            }
        }
        proof {
            assert(data@.subrange(0, i as int) =~= data@);
            if !append {
                assert(padded =~= old(entry)@ + Seq::new(
                    (offset - old(entry)@.len()) as nat,
                    |i: int| 0u8,
                ));
            }
        }
    } else {
        let start = offset as usize;
        let mut i: usize = 0;
        while i < data.len()
            invariant
                start == offset,
                start < len,
                len == old(entry)@.len(),
                i <= data@.len(),
                start + data@.len() <= usize::MAX,
                entry@.len() == if start + i > len { start + i } else { len as int },
                forall|k: int| 0 <= k < start ==> entry@[k] == old(entry)@[k],
                forall|k: int| start <= k < start + i ==> entry@[k] == data@[k - start],
                forall|k: int| start + i <= k < entry@.len() ==> entry@[k] == old(entry)@[k],
            decreases data.len() - i,
        {
            if start + i < entry.len() {
                entry.set(start + i, data[i]);
            } else {
                entry.push(data[i]);
            }
            i = i + 1;
        }
        proof {
            assert(entry@ =~= write_spec(old(entry)@, data@, offset, append));
        }
    }
}

/// A read of the written range gives back what was written: after writing `data` at
/// `offset` (or appending it), reading `data.len()` bytes at that offset (at the old end,
/// for an append) returns `data`.
pub proof fn lemma_write_then_read(d: Seq<u8>, data: Seq<u8>, offset: i64, append: bool)
    requires
        write_args_ok(d.len(), data.len(), offset, append),
        (if append { d.len() as int } else { offset as int }) + data.len() <= i64::MAX,
    ensures
        read_range_spec(
            write_spec(d, data, offset, append),
            (if append { d.len() as i64 } else { offset }),
            data.len() as i64,
        ) == data,
{
    let w = write_spec(d, data, offset, append);
    if append {
        assert(w.subrange(d.len() as int, (d.len() + data.len()) as int) =~= data);
    } else if offset >= d.len() {
        assert(w.subrange(offset as int, offset + data.len()) =~= data);
    } else {
        assert(w.subrange(offset as int, offset + data.len()) =~= data);
    }
}

} // verus!
