//! The large-batch guard of the directory scan: the 100-megabyte threshold
//! and the interactive answer that lets the run proceed.

use vstd::prelude::*;

verus! {

/// The sum of every entry's on-disk size in bytes.
pub open spec fn total_bytes(sizes: Seq<u64>) -> int
    decreases sizes.len(),
{
    if sizes.len() == 0 {
        0
    } else {
        sizes[0] + total_bytes(sizes.skip(1))
    }
}

/// Appending one entry adds its bytes.
proof fn lemma_total_bytes_push(sizes: Seq<u64>, x: u64)
    ensures
        total_bytes(sizes.push(x)) == total_bytes(sizes) + x,
    decreases sizes.len(),
{
    if sizes.len() == 0 {
        assert(sizes.push(x)[0] == x);
        assert(sizes.push(x).skip(1) =~= Seq::<u64>::empty());
        assert(total_bytes(Seq::<u64>::empty()) == 0);
        assert(total_bytes(sizes.push(x)) == x + total_bytes(sizes.push(x).skip(1)));
    } else {
        lemma_total_bytes_push(sizes.skip(1), x);
        assert(sizes.push(x).skip(1) =~= sizes.skip(1).push(x));
        assert(sizes.push(x)[0] == sizes[0]);
        assert(total_bytes(sizes.push(x)) == sizes[0] + total_bytes(sizes.push(x).skip(1)));
        assert(total_bytes(sizes) == sizes[0] + total_bytes(sizes.skip(1)));
    }
}

/// Sizes are nonnegative, so the total only grows with more entries.
proof fn lemma_total_bytes_take_le(sizes: Seq<u64>, i: int)
    requires
        0 <= i <= sizes.len(),
    ensures
        total_bytes(sizes.take(i)) <= total_bytes(sizes),
    decreases sizes.len() - i,
{
    if i < sizes.len() {
        lemma_total_bytes_push(sizes.take(i), sizes[i]);
        assert(sizes.take(i).push(sizes[i]) =~= sizes.take(i + 1));
        lemma_total_bytes_take_le(sizes, i + 1);
        assert(sizes.take(sizes.len() as int) =~= sizes);
    } else {
        assert(sizes.take(i) =~= sizes);
    }
}

/// Whether the entries are together so large that the run must ask for
/// confirmation before proceeding: their byte sizes sum to more than
/// 100 megabytes.
pub fn needs_confirmation(sizes: &Vec<u64>) -> (r: bool)
    ensures
        r == (total_bytes(sizes@) > 100_000_000),
{
    let mut acc: u128 = 0;
    for i in 0..sizes.len()
        invariant
            acc == total_bytes(sizes@.take(i as int)),
            acc <= 100_000_000,
    {
        proof {
            lemma_total_bytes_push(sizes@.take(i as int), sizes@[i as int]);
            assert(sizes@.take(i as int).push(sizes@[i as int]) =~= sizes@.take(i as int + 1));
        }
        acc = acc + sizes[i] as u128;
        if acc > 100_000_000 {
            proof {
                lemma_total_bytes_take_le(sizes@, i as int + 1);
            }
            return true;
        }
    }
    proof {
        assert(sizes@.take(sizes@.len() as int) =~= sizes@);
    }
    false
}

/// The sum of every entry's size in whole megabytes (each size divided by
/// 1000000, truncated, before summing).
pub open spec fn total_megabytes(sizes: Seq<u64>) -> int
    decreases sizes.len(),
{
    if sizes.len() == 0 {
        0
    } else {
        sizes[0] / 1000000 + total_megabytes(sizes.skip(1))
    }
}

/// Appending one entry adds its whole megabytes.
proof fn lemma_total_megabytes_push(sizes: Seq<u64>, x: u64)
    ensures
        total_megabytes(sizes.push(x)) == total_megabytes(sizes) + x / 1000000,
    decreases sizes.len(),
{
    if sizes.len() == 0 {
        assert(sizes.push(x)[0] == x);
        assert(sizes.push(x).skip(1) =~= Seq::<u64>::empty());
        assert(total_megabytes(Seq::<u64>::empty()) == 0);
        assert(total_megabytes(sizes.push(x)) == x / 1000000 + total_megabytes(
            sizes.push(x).skip(1),
        ));
    } else {
        lemma_total_megabytes_push(sizes.skip(1), x);
        assert(sizes.push(x).skip(1) =~= sizes.skip(1).push(x));
        assert(sizes.push(x)[0] == sizes[0]);
        assert(total_megabytes(sizes.push(x)) == sizes[0] / 1000000 + total_megabytes(
            sizes.push(x).skip(1),
        ));
        assert(total_megabytes(sizes) == sizes[0] / 1000000 + total_megabytes(sizes.skip(1)));
    }
}

/// Sizes are nonnegative, so the total only grows with more entries.
proof fn lemma_total_megabytes_take_le(sizes: Seq<u64>, i: int)
    requires
        0 <= i <= sizes.len(),
    ensures
        total_megabytes(sizes.take(i)) <= total_megabytes(sizes),
    decreases sizes.len() - i,
{
    if i < sizes.len() {
        lemma_total_megabytes_push(sizes.take(i), sizes[i]);
        assert(sizes.take(i).push(sizes[i]) =~= sizes.take(i + 1));
        lemma_total_megabytes_take_le(sizes, i + 1);
        assert(sizes.take(sizes.len() as int) =~= sizes);
    } else {
        assert(sizes.take(i) =~= sizes);
    }
}

/// The exact total of whole megabytes per entry, as the confirmation
/// prompt's message reports it; `None` when it leaves the `u64` range.
pub fn megabytes_total(sizes: &Vec<u64>) -> (r: Option<u64>)
    ensures
        match r {
            Some(t) => t == total_megabytes(sizes@),
            None => total_megabytes(sizes@) > u64::MAX,
        },
{
    let mut acc: u64 = 0;
    for i in 0..sizes.len()
        invariant
            acc == total_megabytes(sizes@.take(i as int)),
    {
        proof {
            lemma_total_megabytes_push(sizes@.take(i as int), sizes@[i as int]);
            assert(sizes@.take(i as int).push(sizes@[i as int]) =~= sizes@.take(i as int + 1));
        }
        let add = sizes[i] / 1000000;
        if add > u64::MAX - acc {
            proof {
                lemma_total_megabytes_take_le(sizes@, i as int + 1);
            }
            return None;
        }
        acc = acc + add;
    }
    proof {
        assert(sizes@.take(sizes@.len() as int) =~= sizes@);
    }
    Some(acc)
}

/// A whitespace character per Unicode's White_Space property, the set that
/// str::trim strips from the answer's ends.
pub open spec fn is_space(c: char) -> bool {
    let u = c as u32;
    (9 <= u && u <= 13) || u == 32 || u == 0x85 || u == 0xa0 || u == 0x1680 || (0x2000 <= u && u
        <= 0x200a) || u == 0x2028 || u == 0x2029 || u == 0x202f || u == 0x205f || u == 0x3000
}

/// `s` equals `t`, except that any letter of `s` may be the uppercase ASCII
/// form of `t`'s lowercase letter at that position.
pub open spec fn matches_ci(s: Seq<char>, t: Seq<char>) -> bool {
    s.len() == t.len() && forall|i: int|
        0 <= i < s.len() ==> s[i] == t[i] || ((#[trigger] s[i]) as u32) + 32 == (t[i] as u32)
}

/// The answer accepts: stripped of whitespace at both ends it reads `y` or
/// `yes`, case-insensitively. Any other answer declines.
pub open spec fn spec_affirmative(s: Seq<char>) -> bool {
    exists|lo: int, hi: int|
        0 <= lo <= hi <= s.len() && (forall|m: int| 0 <= m < lo ==> is_space(#[trigger] s[m])) && (
        forall|m: int| hi <= m < s.len() ==> is_space(#[trigger] s[m])) && (matches_ci(
            #[trigger] s.subrange(lo, hi),
            "y"@,
        ) || matches_ci(s.subrange(lo, hi), "yes"@))
}

fn is_space_char(c: char) -> (r: bool)
    ensures
        r == is_space(c),
{
    let u = c as u32;
    (9 <= u && u <= 13) || u == 32 || u == 0x85 || u == 0xa0 || u == 0x1680 || (0x2000 <= u && u
        <= 0x200a) || u == 0x2028 || u == 0x2029 || u == 0x202f || u == 0x205f || u == 0x3000
}

fn char_ci_eq(c: char, t: char) -> (r: bool)
    ensures
        r == (c == t || (c as u32) + 32 == (t as u32)),
{
    let u = c as u32;
    u == t as u32 || u + 32 == t as u32
}

/// Whether the confirmation answer lets the run proceed.
pub fn is_affirmative(answer: &str) -> (r: bool)
    ensures
        r == spec_affirmative(answer@),
{
    let s = answer;
    let len = s.unicode_len();
    let mut lo: usize = 0;
    while lo < len && is_space_char(s.get_char(lo))
        invariant
            lo <= len,
            len == s@.len(),
            forall|m: int| 0 <= m < lo ==> is_space(#[trigger] s@[m]),
        decreases len - lo,
    {
        lo = lo + 1;
    }
    let mut hi: usize = len;
    while hi > lo && is_space_char(s.get_char(hi - 1))
        invariant
            lo <= hi <= len,
            len == s@.len(),
            forall|m: int| hi <= m < len ==> is_space(#[trigger] s@[m]),
        decreases hi,
    {
        hi = hi - 1;
    }
    let n = hi - lo;
    let matched: bool = if n == 1 {
        char_ci_eq(s.get_char(lo), 'y')
    } else if n == 3 {
        char_ci_eq(s.get_char(lo), 'y') && char_ci_eq(s.get_char(lo + 1), 'e') && char_ci_eq(
            s.get_char(lo + 2),
            's',
        )
    } else {
        false
    };
    proof {
        reveal_strlit("y");
        reveal_strlit("yes");
        let lov = lo as int;
        let hiv = hi as int;
        let core = s@.subrange(lov, hiv);
        if matched {
            assert(matches_ci(core, "y"@) || matches_ci(core, "yes"@)) by {
                if n == 1 {
                    assert(core[0] == s@[lov]);
                } else {
                    assert(core[0] == s@[lov] && core[1] == s@[lov + 1] && core[2] == s@[lov + 2]);
                }
            }
            assert(spec_affirmative(s@));
        } else {
            assert(!spec_affirmative(s@)) by {
                if spec_affirmative(s@) {
                    let (lo2, hi2): (int, int) = choose|lo2: int, hi2: int|
                        0 <= lo2 <= hi2 <= s@.len() && (forall|m: int|
                            0 <= m < lo2 ==> is_space(#[trigger] s@[m])) && (forall|m: int|
                            hi2 <= m < s@.len() ==> is_space(#[trigger] s@[m])) && (matches_ci(
                            #[trigger] s@.subrange(lo2, hi2),
                            "y"@,
                        ) || matches_ci(s@.subrange(lo2, hi2), "yes"@));
                    let core2 = s@.subrange(lo2, hi2);
                    // the matched text starts with y or Y and ends with y, Y,
                    // s or S, none of which is whitespace
                    assert(!is_space(core2[0]));
                    assert(!is_space(core2[core2.len() - 1]));
                    // so the witness bounds are exactly the trimmed bounds
                    assert(lo2 == lov) by {
                        assert(core2[0] == s@[lo2]);
                        if lo2 < lov {
                            assert(is_space(s@[lo2]));
                        }
                        if lo2 > lov {
                            assert(!is_space(s@[lov]));
                            assert(is_space(s@[lov]));
                        }
                    }
                    assert(hi2 == hiv) by {
                        assert(core2[core2.len() - 1] == s@[hi2 - 1]);
                        if hi2 < hiv {
                            assert(!is_space(s@[hiv - 1]));
                            assert(is_space(s@[hiv - 1]));
                        }
                        if hi2 > hiv {
                            assert(is_space(s@[hi2 - 1]));
                        }
                    }
                    assert(core2 =~= core);
                    if matches_ci(core, "y"@) {
                        assert(core.len() == 1);
                        assert(core[0] == s@[lov]);
                        assert(core[0] == 'y' || ((core[0] as u32) + 32 == ('y' as u32)));
                    } else {
                        assert(matches_ci(core, "yes"@));
                        assert(core.len() == 3);
                        assert(core[0] == s@[lov] && core[1] == s@[lov + 1] && core[2] == s@[lov
                            + 2]);
                        assert(core[0] == 'y' || ((core[0] as u32) + 32 == ('y' as u32)));
                        assert(core[1] == 'e' || ((core[1] as u32) + 32 == ('e' as u32)));
                        assert(core[2] == 's' || ((core[2] as u32) + 32 == ('s' as u32)));
                    }
                    assert(false);
                }
            }
        }
    }
    matched
}

} // verus!
