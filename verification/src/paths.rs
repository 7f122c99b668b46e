//! Path-name helpers: which files count as images, and where cleaned output
//! goes by default. Paths are handled as byte strings, split at the last
//! `/` into directory and file name and at the file name's last `.` into
//! stem and extension (a name whose only `.` is its first byte has no
//! extension).

use vstd::prelude::*;

verus! {

/// Index of the last occurrence of `c` in `s`, or `-1` if there is none.
pub open spec fn last_index_of(s: Seq<u8>, c: u8) -> int
    decreases s.len(),
{
    if s.len() == 0 {
        -1
    } else if s.last() == c {
        s.len() - 1
    } else {
        last_index_of(s.drop_last(), c)
    }
}

/// ASCII lowercase of one byte.
pub open spec fn spec_lower_byte(c: u8) -> u8 {
    if 65 <= c <= 90 {
        (c + 32) as u8
    } else {
        c
    }
}

/// ASCII lowercase of a byte string.
pub open spec fn spec_lower(s: Seq<u8>) -> Seq<u8> {
    s.map_values(|c: u8| spec_lower_byte(c))
}

/// The extension of the file name of `p`: the bytes after the last `.` of
/// the part after the last `/`, where a leading `.` does not start an
/// extension. The second component says whether there is one.
pub open spec fn spec_extension(p: Seq<u8>) -> (Seq<u8>, bool) {
    let name = p.subrange(last_index_of(p, 47) + 1, p.len() as int);
    let dot = last_index_of(name, 46);
    if dot <= 0 {
        (Seq::empty(), false)
    } else {
        (name.subrange(dot + 1, name.len() as int), true)
    }
}

/// Whether `p` names a supported raster image: its lowercased extension is
/// one of `jpg`, `jpeg`, `png`, `webp`, `bmp`.
pub open spec fn spec_is_supported_image(p: Seq<u8>) -> bool {
    let (ext, has) = spec_extension(p);
    has && {
        let e = spec_lower(ext);
        ||| e == seq![106u8, 112u8, 103u8]  // jpg
        ||| e == seq![106u8, 112u8, 101u8, 103u8]  // jpeg
        ||| e == seq![112u8, 110u8, 103u8]  // png
        ||| e == seq![119u8, 101u8, 98u8, 112u8]  // webp
        ||| e == seq![98u8, 109u8, 112u8]  // bmp
    }
}

/// The suffix spliced into a default output name, `_cleaned.` in bytes.
pub open spec fn spec_cleaned_suffix() -> Seq<u8> {
    seq![95u8, 99u8, 108u8, 101u8, 97u8, 110u8, 101u8, 100u8, 46u8]
}

/// The default output path for input `p`: directory and stem unchanged,
/// `_cleaned.` spliced in, the extension kept (empty when `p` has none).
pub open spec fn spec_default_output_path(p: Seq<u8>) -> Seq<u8> {
    let name_start = last_index_of(p, 47) + 1;
    let name = p.subrange(name_start, p.len() as int);
    let dot = last_index_of(name, 46);
    let cut = if dot <= 0 {
        p.len() as int
    } else {
        name_start + dot
    };
    let cut_ext = if dot <= 0 {
        p.len() as int
    } else {
        name_start + dot + 1
    };
    p.subrange(0, cut) + spec_cleaned_suffix() + p.subrange(cut_ext, p.len() as int)
}

/// Index of the last occurrence of `c` at or after `from`, in coordinates of
/// the tail `s[from..]`; `-1` if there is none.
fn last_index_in_tail(s: &[u8], from: usize, c: u8) -> (r: i64)
    requires
        from <= s@.len(),
        s@.len() <= i64::MAX,
    ensures
        r == last_index_of(s@.subrange(from as int, s@.len() as int), c),
        -1 <= r,
        from + r < s@.len(),
{
    let n = s.len();
    let mut r: i64 = -1;
    let mut k: usize = from;
    while k < n
        invariant
            from <= k <= n,
            n == s@.len() <= i64::MAX,
            r == last_index_of(s@.subrange(from as int, k as int), c),
            -1 <= r,
            from + r < k || (k == from && r == -1),
        decreases n - k,
    {
        proof {
            assert(s@.subrange(from as int, k + 1).drop_last() =~= s@.subrange(
                from as int,
                k as int,
            ));
            assert(s@.subrange(from as int, k + 1).last() == s@[k as int]);
        }
        if s[k] == c {
            r = (k - from) as i64;
        }
        k = k + 1;
    }
    r
}

/// Whether the path names a supported raster image by its extension:
/// exactly [`spec_is_supported_image`] of the path bytes. The comparison is
/// case-insensitive, so `photo.JPEG` is accepted.
pub fn is_supported_image(path: &[u8]) -> (r: bool)
    requires
        path@.len() <= i64::MAX,
    ensures
        r == spec_is_supported_image(path@),
{
    let n = path.len();
    let ls = last_index_in_tail(path, 0, 47);
    proof {
        assert(path@.subrange(0, path@.len() as int) =~= path@);
    }
    let name_start: usize = (ls + 1) as usize;
    let ghost name = path@.subrange(name_start as int, path@.len() as int);
    let nd = last_index_in_tail(path, name_start, 46);
    if nd <= 0 {
        return false;
    }
    let ext_start: usize = name_start + (nd as usize) + 1;
    let ghost ext = name.subrange(nd + 1, name.len() as int);
    proof {
        assert(ext =~= path@.subrange(ext_start as int, path@.len() as int));
    }
    let mut low: Vec<u8> = Vec::new();
    let mut k: usize = ext_start;
    while k < n
        invariant
            ext_start <= k <= n,
            n == path@.len(),
            ext == path@.subrange(ext_start as int, path@.len() as int),
            low@.len() == k - ext_start,
            forall|t: int|
                0 <= t < low@.len() ==> low@[t] == spec_lower_byte(path@[ext_start + t]),
        decreases n - k,
    {
        let b = path[k];
        let lb: u8 = if 65 <= b && b <= 90 {
            b + 32
        } else {
            b
        };
        low.push(lb);
        k = k + 1;
    }
    proof {
        assert(low@ =~= spec_lower(ext));
    }
    let r = (low.len() == 3 && low[0] == 106 && low[1] == 112 && low[2] == 103) || (low.len() == 4
        && low[0] == 106 && low[1] == 112 && low[2] == 101 && low[3] == 103) || (low.len() == 3
        && low[0] == 112 && low[1] == 110 && low[2] == 103) || (low.len() == 4 && low[0] == 119
        && low[1] == 101 && low[2] == 98 && low[3] == 112) || (low.len() == 3 && low[0] == 98
        && low[1] == 109 && low[2] == 112);
    proof {
        let e = spec_lower(ext);
        if r {
            if low@.len() == 3 {
                assert(e == seq![low@[0], low@[1], low@[2]]) by {
                    assert(e =~= seq![low@[0], low@[1], low@[2]]);
                }
            } else {
                assert(e == seq![low@[0], low@[1], low@[2], low@[3]]) by {
                    assert(e =~= seq![low@[0], low@[1], low@[2], low@[3]]);
                }
            }
        }
    }
    r
}

/// The default output path for an input path: the same directory and stem
/// with `_cleaned.` and the extension appended, exactly
/// [`spec_default_output_path`] of the path bytes (`photo.jpg` becomes
/// `photo_cleaned.jpg`).
pub fn default_output_path(input: &[u8]) -> (out: Vec<u8>)
    requires
        input@.len() <= i64::MAX,
    ensures
        out@ == spec_default_output_path(input@),
{
    let n = input.len();
    let ls = last_index_in_tail(input, 0, 47);
    proof {
        assert(input@.subrange(0, input@.len() as int) =~= input@);
    }
    let name_start: usize = (ls + 1) as usize;
    let nd = last_index_in_tail(input, name_start, 46);
    let cut: usize = if nd <= 0 {
        n
    } else {
        name_start + (nd as usize)
    };
    let cut_ext: usize = if nd <= 0 {
        n
    } else {
        name_start + (nd as usize) + 1
    };
    let mut out: Vec<u8> = Vec::new();
    let mut k: usize = 0;
    while k < cut
        invariant
            k <= cut <= n,
            n == input@.len(),
            out@ == input@.subrange(0, k as int),
        decreases cut - k,
    {
        proof {
            assert(input@.subrange(0, k + 1) =~= input@.subrange(0, k as int).push(
                input@[k as int],
            ));
        }
        out.push(input[k]);
        k = k + 1;
    }
    out.push(95);
    out.push(99);
    out.push(108);
    out.push(101);
    out.push(97);
    out.push(110);
    out.push(101);
    out.push(100);
    out.push(46);
    proof {
        assert(out@ =~= input@.subrange(0, cut as int) + spec_cleaned_suffix());
    }
    let ghost mid = out@;
    let mut k2: usize = cut_ext;
    while k2 < n
        invariant
            cut_ext <= k2 <= n,
            n == input@.len(),
            mid == input@.subrange(0, cut as int) + spec_cleaned_suffix(),
            out@ == mid + input@.subrange(cut_ext as int, k2 as int),
        decreases n - k2,
    {
        proof {
            assert(input@.subrange(cut_ext as int, k2 + 1) =~= input@.subrange(
                cut_ext as int,
                k2 as int,
            ).push(input@[k2 as int]));
            assert(mid + input@.subrange(cut_ext as int, k2 + 1) =~= (mid + input@.subrange(
                cut_ext as int,
                k2 as int,
            )).push(input@[k2 as int]));
        }
        out.push(input[k2]);
        k2 = k2 + 1;
    }
    proof {
        assert(out@ =~= spec_default_output_path(input@));
    }
    out
}

} // verus!
