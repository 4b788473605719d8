//! A verified reader for the tar container format, as far as member lookup
//! needs it: 512-byte headers carrying a NUL-terminated member name and an
//! octal size, each followed by the member's data padded to a block
//! boundary, ended by a zero block or the end of the input.
use vstd::prelude::*;

verus! {

/// The 512 bytes at `o` are all zero (an end-of-archive block).
pub open spec fn all_zero_block(b: Seq<u8>, o: int) -> bool {
    forall|j: int| o <= j < o + 512 ==> b[j] == 0u8
}

/// Length of the NUL-terminated prefix of a name field.
pub open spec fn name_len(f: Seq<u8>) -> int
    decreases f.len(),
{
    if f.len() == 0 {
        0
    } else if f[0] == 0u8 {
        0
    } else {
        1 + name_len(f.drop_first())
    }
}

pub proof fn lemma_name_len(f: Seq<u8>)
    ensures
        0 <= name_len(f) <= f.len(),
        forall|j: int| 0 <= j < name_len(f) ==> f[j] != 0u8,
        name_len(f) < f.len() ==> f[name_len(f)] == 0u8,
    decreases f.len(),
{
    if f.len() > 0 && f[0] != 0u8 {
        lemma_name_len(f.drop_first());
        assert(forall|j: int| 0 <= j < name_len(f.drop_first()) ==> f.drop_first()[j] != 0u8);
        assert(forall|j: int| 1 <= j < name_len(f) ==> f[j] == f.drop_first()[j - 1]);
    }
}

/// An ASCII octal digit.
pub open spec fn is_octal(c: u8) -> bool {
    0x30 <= c <= 0x37
}

/// Number of leading octal digits of a size field.
pub open spec fn octal_digits(f: Seq<u8>) -> int
    decreases f.len(),
{
    if f.len() == 0 {
        0
    } else if is_octal(f[0]) {
        1 + octal_digits(f.drop_first())
    } else {
        0
    }
}

pub proof fn lemma_octal_digits(f: Seq<u8>)
    ensures
        0 <= octal_digits(f) <= f.len(),
        forall|j: int| 0 <= j < octal_digits(f) ==> is_octal(f[j]),
        octal_digits(f) < f.len() ==> !is_octal(f[octal_digits(f)]),
    decreases f.len(),
{
    if f.len() > 0 && is_octal(f[0]) {
        lemma_octal_digits(f.drop_first());
        assert(forall|j: int| 1 <= j < octal_digits(f) ==> f[j] == f.drop_first()[j - 1]);
    }
}

/// Value of a string of octal digits, most significant first.
pub open spec fn octal_value(f: Seq<u8>) -> int
    decreases f.len(),
{
    if f.len() == 0 {
        0
    } else {
        octal_value(f.drop_last()) * 8 + (f.last() - 0x30)
    }
}

/// 8 to the power `n`.
pub open spec fn pow8(n: nat) -> int
    decreases n,
{
    if n == 0 {
        1
    } else {
        8 * pow8((n - 1) as nat)
    }
}

pub proof fn lemma_octal_value_bound(f: Seq<u8>)
    requires
        forall|j: int| 0 <= j < f.len() ==> is_octal(f[j]),
    ensures
        0 <= octal_value(f) < pow8(f.len()),
    decreases f.len(),
{
    if f.len() > 0 {
        assert(forall|j: int| 0 <= j < f.len() - 1 ==> f.drop_last()[j] == f[j]);
        lemma_octal_value_bound(f.drop_last());
        assert(is_octal(f.last()));
    }
}

/// The bytes after the digits of a size field: only NUL or space padding.
pub open spec fn padding_ok(f: Seq<u8>) -> bool {
    forall|j: int| 0 <= j < f.len() ==> (f[j] == 0u8 || f[j] == 0x20u8)
}

/// Size recorded in a 12-byte size field: at least one octal digit,
/// followed only by NUL or space padding.
pub open spec fn parse_size(f: Seq<u8>) -> Option<int> {
    let d = octal_digits(f);
    if d == 0 {
        None
    } else if !padding_ok(f.skip(d)) {
        None
    } else {
        Some(octal_value(f.take(d)))
    }
}

/// The member name recorded at header offset `o`: the NUL-terminated
/// prefix of the 100-byte name field.
pub open spec fn entry_name(b: Seq<u8>, o: int) -> Seq<u8> {
    let f = b.subrange(o, o + 100);
    f.take(name_len(f))
}

/// Result of looking member `name` up in the archive `b` from offset `o`:
/// `None` for a malformed archive, `Some(None)` when the archive ends
/// without the member, `Some(Some(data))` for the first member whose name
/// matches.
pub open spec fn tar_lookup(b: Seq<u8>, name: Seq<u8>, o: int) -> Option<Option<Seq<u8>>>
    decreases b.len() + 1024 - o,
    via tar_lookup_dec
{
    if o >= b.len() {
        if o == b.len() {
            Some(None)
        } else {
            None
        }
    } else if o + 512 > b.len() {
        None
    } else if all_zero_block(b, o) {
        Some(None)
    } else {
        match parse_size(b.subrange(o + 124, o + 136)) {
            None => None,
            Some(size) => if o + 512 + size > b.len() {
                None
            } else if entry_name(b, o) == name {
                Some(Some(b.subrange(o + 512, o + 512 + size)))
            } else {
                tar_lookup(b, name, o + 512 + ((size + 511) / 512) * 512)
            },
        }
    }
}

#[via_fn]
proof fn tar_lookup_dec(b: Seq<u8>, name: Seq<u8>, o: int) {
    if o < b.len() && o + 512 <= b.len() && !all_zero_block(b, o) {
        match parse_size(b.subrange(o + 124, o + 136)) {
            None => {},
            Some(size) => {
                if o + 512 + size <= b.len() && entry_name(b, o) != name {
                    let f = b.subrange(o + 124, o + 136);
                    let d = octal_digits(f);
                    lemma_octal_digits(f);
                    assert(forall|j: int|
                        0 <= j < f.take(d).len() ==> is_octal(#[trigger] f.take(d)[j]));
                    lemma_octal_value_bound(f.take(d));
                    assert(size >= 0);
                    assert(((size + 511) / 512) * 512 <= size + 511) by (nonlinear_arith)
                        requires
                            size >= 0,
                    ;
                    assert(((size + 511) / 512) * 512 >= 0) by (nonlinear_arith)
                        requires
                            size >= 0,
                    ;
                }
            },
        }
    }
}

/// Spec-level view of the nested option an exec lookup returns.
pub open spec fn opt2_view(r: Option<Option<Vec<u8>>>) -> Option<Option<Seq<u8>>> {
    match r {
        None => None,
        Some(None) => Some(None),
        Some(Some(v)) => Some(Some(v@)),
    }
}

/// Looks a member up by exact name in a tar archive held in memory.
pub fn tar_find_member(bytes: &Vec<u8>, name: &Vec<u8>) -> (r: Option<Option<Vec<u8>>>)
    ensures
        opt2_view(r) == tar_lookup(bytes@, name@, 0),
{
    let n = bytes.len();
    let mut o: usize = 0;
    while o < n
        invariant
            n == bytes@.len(),
            o <= n,
            tar_lookup(bytes@, name@, 0) == tar_lookup(bytes@, name@, o as int),
        decreases n - o,
    {
        if n - o < 512 {
            return None;
        }
        // end-of-archive check: a block of zeros
        let mut z: usize = 0;
        let mut zero = true;
        while zero && z < 512
            invariant
                n == bytes@.len(),
                o + 512 <= n,
                z <= 512,
                zero ==> forall|j: int| 0 <= j < z ==> #[trigger] bytes@[o + j] == 0u8,
                !zero ==> !all_zero_block(bytes@, o as int),
            decreases (if zero {
                1int
            } else {
                0int
            }), 512 - z,
        {
            if bytes[o + z] != 0 {
                proof {
                    assert(!all_zero_block(bytes@, o as int)) by {
                        assert(bytes@[o + z] != 0u8);
                    }
                }
                zero = false;
            } else {
                z += 1;
            }
        }
        if zero {
            assert forall|j: int| o <= j < o + 512 implies bytes@[j] == 0u8 by {
                assert(bytes@[o + (j - o)] == 0u8);
            }
            assert(all_zero_block(bytes@, o as int));
            return Some(None);
        }
        // size field: digits then padding
        let ghost f = bytes@.subrange(o + 124, o + 136);
        let mut d: usize = 0;
        while d < 12 && 0x30 <= bytes[o + 124 + d] && bytes[o + 124 + d] <= 0x37
            invariant
                n == bytes@.len(),
                o + 512 <= n,
                d <= 12,
                f == bytes@.subrange(o + 124, o + 136),
                forall|j: int| 0 <= j < d ==> is_octal(#[trigger] f[j]),
            decreases 12 - d,
        {
            d += 1;
        }
        proof {
            lemma_octal_digits(f);
            if octal_digits(f) != d {
                if octal_digits(f) < d {
                    assert(!is_octal(f[octal_digits(f)]));
                    assert(false);
                } else {
                    assert(d < 12);
                    assert(is_octal(f[d as int]));
                    assert(false);
                }
            }
        }
        if d == 0 {
            assert(f[0] == bytes@[o + 124]);
            assert(octal_digits(f) == 0);
            assert(parse_size(f) is None);
            assert(tar_lookup(bytes@, name@, o as int) is None);
            return None;
        }
        // padding after the digits
        let mut p: usize = d;
        while p < 12
            invariant
                n == bytes@.len(),
                o < n,
                o + 512 <= n,
                1 <= d <= p <= 12,
                f == bytes@.subrange(o + 124, o + 136),
                octal_digits(f) == d,
                !all_zero_block(bytes@, o as int),
                tar_lookup(bytes@, name@, 0) == tar_lookup(bytes@, name@, o as int),
                forall|j: int| d <= j < p ==> (f[j] == 0u8 || f[j] == 0x20u8),
            decreases 12 - p,
        {
            let c = bytes[o + 124 + p];
            if c != 0 && c != 0x20 {
                assert(!padding_ok(f.skip(d as int))) by {
                    assert(f.skip(d as int)[p - d] == f[p as int]);
                }
                return None;
            }
            p += 1;
        }
        proof {
            assert(padding_ok(f.skip(d as int)));
        }
        // the size's numeric value
        let ghost digs = f.take(d as int);
        let mut size: u64 = 0;
        let mut q: usize = 0;
        while q < d
            invariant
                n == bytes@.len(),
                o + 512 <= n,
                q <= d <= 12,
                f == bytes@.subrange(o + 124, o + 136),
                digs == f.take(d as int),
                forall|j: int| 0 <= j < d ==> is_octal(#[trigger] f[j]),
                size as int == octal_value(digs.take(q as int)),
                (size as int) < pow8(q as nat),
            decreases d - q,
        {
            proof {
                reveal_with_fuel(pow8, 13);
                assert(digs.take(q as int + 1).drop_last() =~= digs.take(q as int));
                assert(digs.take(q as int + 1).last() == f[q as int]);
            }
            size = size * 8 + ((bytes[o + 124 + q] - 0x30) as u64);
            q += 1;
        }
        proof {
            reveal_with_fuel(pow8, 13);
            assert(digs.take(d as int) =~= digs);
        }
        // the member's data must lie inside the archive
        let remaining: usize = n - o - 512;
        if size > remaining as u64 {
            assert(parse_size(f) == Some(size as int));
            return None;
        }
        let size_us: usize = size as usize;
        // the member's name: NUL-terminated prefix of the 100-byte field
        let ghost nf = bytes@.subrange(o as int, o + 100);
        let mut nl: usize = 0;
        while nl < 100 && bytes[o + nl] != 0
            invariant
                n == bytes@.len(),
                o + 512 <= n,
                nl <= 100,
                nf == bytes@.subrange(o as int, o + 100),
                forall|j: int| 0 <= j < nl ==> nf[j] != 0u8,
            decreases 100 - nl,
        {
            nl += 1;
        }
        proof {
            lemma_name_len(nf);
            if name_len(nf) != nl {
                if name_len(nf) < nl {
                    assert(nf[name_len(nf)] != 0u8);
                    assert(false);
                } else {
                    assert(nl < 100);
                    assert(nf[nl as int] == 0u8);
                    assert(false);
                }
            }
        }
        // does this entry match the requested name?
        let mut is_match = nl == name.len();
        if is_match {
            let mut m: usize = 0;
            while is_match && m < nl
                invariant
                    n == bytes@.len(),
                    o + 512 <= n,
                    nl <= 100,
                    nl == name@.len(),
                    nl as int == name_len(nf),
                    nf == bytes@.subrange(o as int, o + 100),
                    m <= nl,
                    is_match ==> forall|j: int| 0 <= j < m ==> nf[j] == name@[j],
                    !is_match ==> entry_name(bytes@, o as int) != name@,
                decreases (if is_match {
                    1int
                } else {
                    0int
                }), nl - m,
            {
                if bytes[o + m] != name[m] {
                    proof {
                        lemma_name_len(nf);
                        assert(entry_name(bytes@, o as int)[m as int] == nf[m as int]);
                    }
                    is_match = false;
                } else {
                    m += 1;
                }
            }
            proof {
                if is_match {
                    lemma_name_len(nf);
                    assert(entry_name(bytes@, o as int) =~= name@);
                }
            }
        } else {
            proof {
                lemma_name_len(nf);
                assert(entry_name(bytes@, o as int).len() == nl);
                assert(entry_name(bytes@, o as int) != name@);
            }
        }
        if is_match {
            // copy the member's data out
            let mut out: Vec<u8> = Vec::new();
            let mut c: usize = 0;
            while c < size_us
                invariant
                    n == bytes@.len(),
                    o + 512 + size_us <= n,
                    c <= size_us,
                    out@ =~= bytes@.subrange(o + 512, o + 512 + c),
                decreases size_us - c,
            {
                out.push(bytes[o + 512 + c]);
                c += 1;
            }
            proof {
                assert(parse_size(f) == Some(size as int));
                assert(tar_lookup(bytes@, name@, o as int) == Some(
                    Some(bytes@.subrange(o + 512, o + 512 + size as int)),
                ));
            }
            return Some(Some(out));
        }
        // skip to the next header, past the data and its padding
        proof {
            assert(parse_size(f) == Some(size as int));
        }
        let padded: u64 = ((size + 511) / 512) * 512;
        proof {
            assert(padded as int == ((size as int + 511) / 512) * 512) by (nonlinear_arith)
                requires
                    0 <= (size as int) < 0x1000000001000,
                    padded == ((size + 511) / 512) * 512,
            ;
            assert((size as int) <= (padded as int) < (size as int) + 512) by (nonlinear_arith)
                requires
                    padded as int == ((size as int + 511) / 512) * 512,
                    size >= 0,
            ;
        }
        if padded > remaining as u64 {
            proof {
                assert(tar_lookup(bytes@, name@, o as int) == tar_lookup(
                    bytes@,
                    name@,
                    o + 512 + padded as int,
                ));
                assert(o + 512 + padded as int > n);
            }
            return None;
        }
        proof {
            assert(tar_lookup(bytes@, name@, o as int) == tar_lookup(
                bytes@,
                name@,
                o + 512 + padded as int,
            ));
        }
        o = o + 512 + (padded as usize);
    }
    assert(o == n);
    Some(None)
}

} // verus!
