//! Output file naming: `collage_<n>.png`, and the first such name that no
//! existing file bears.

use vstd::prelude::*;
use vstd::string::StrSliceExecFns;
use vstd::string::StringExecFns;
use vstd::set_lib::set_int_range;
use vstd::set_lib::lemma_int_range;
use vstd::set_lib::lemma_map_size;
use vstd::set_lib::lemma_map_size_bound;
use vstd::set_lib::lemma_len_subset;
use vstd::relations::injective_on;

verus! {

/// The character of one decimal digit.
pub open spec fn digit_char(d: int) -> char {
    seq!['0', '1', '2', '3', '4', '5', '6', '7', '8', '9'][d]
}

/// The characters of `n` in decimal, most significant first.
pub open spec fn decimal_digits(n: nat) -> Seq<char>
    decreases n,
{
    if n < 10 {
        seq![digit_char(n as int)]
    } else {
        decimal_digits(n / 10) + seq![digit_char((n % 10) as int)]
    }
}

/// The output file name for index `n`.
pub open spec fn spec_collage_name(n: nat) -> Seq<char> {
    "collage_"@ + decimal_digits(n) + ".png"@
}

/// One decimal digit as a string.
fn digit_str(d: u64) -> (r: &'static str)
    requires
        d < 10,
    ensures
        r@ == seq![digit_char(d as int)],
{
    let lit = "0123456789";
    proof {
        reveal_strlit("0123456789");
        assert(lit@ =~= seq!['0', '1', '2', '3', '4', '5', '6', '7', '8', '9']);
    }
    let s = lit.substring_ascii(d as usize, d as usize + 1);
    proof {
        assert(s@ =~= seq![digit_char(d as int)]);
    }
    s
}

/// Format `n` in decimal.
pub fn u64_to_decimal(n: u64) -> (r: String)
    ensures
        r@ == decimal_digits(n as nat),
    decreases n,
{
    if n < 10 {
        String::from_str(digit_str(n))
    } else {
        let rest = u64_to_decimal(n / 10);
        let last = digit_str(n % 10);
        let r = rest.concat(last);
        proof {
            assert(r@ =~= decimal_digits(n as nat));
        }
        r
    }
}

/// The output file name `collage_<n>.png`.
pub fn collage_file_name(n: u64) -> (r: String)
    ensures
        r@ == spec_collage_name(n as nat),
{
    let mut s = String::from_str("collage_");
    let digits = u64_to_decimal(n);
    s.append(digits.as_str());
    s.append(".png");
    proof {
        assert(s@ =~= spec_collage_name(n as nat));
    }
    s
}

/// A number has at least one digit.
proof fn lemma_decimal_digits_len(n: nat)
    ensures
        decimal_digits(n).len() >= 1,
    decreases n,
{
    if n >= 10 {
        lemma_decimal_digits_len(n / 10);
    }
}

/// Different digits have different characters.
proof fn lemma_digit_char_injective(a: int, b: int)
    requires
        0 <= a < 10,
        0 <= b < 10,
        digit_char(a) == digit_char(b),
    ensures
        a == b,
{
}

/// Different numbers have different decimal digit strings.
proof fn lemma_decimal_digits_injective(m: nat, n: nat)
    requires
        decimal_digits(m) == decimal_digits(n),
    ensures
        m == n,
    decreases m,
{
    lemma_decimal_digits_len(m);
    lemma_decimal_digits_len(n);
    if m < 10 && n < 10 {
        assert(decimal_digits(m)[0] == digit_char(m as int));
        assert(decimal_digits(n)[0] == digit_char(n as int));
        lemma_digit_char_injective(m as int, n as int);
    } else if m < 10 && n >= 10 {
        lemma_decimal_digits_len(n / 10);
        assert(decimal_digits(n).len() >= 2);
        assert(false);
    } else if m >= 10 && n < 10 {
        lemma_decimal_digits_len(m / 10);
        assert(decimal_digits(m).len() >= 2);
        assert(false);
    } else {
        let dm = decimal_digits(m);
        let dn = decimal_digits(n);
        assert(dm.last() == digit_char((m % 10) as int));
        assert(dn.last() == digit_char((n % 10) as int));
        lemma_digit_char_injective((m % 10) as int, (n % 10) as int);
        assert(decimal_digits(m / 10) =~= dm.take(dm.len() - 1));
        assert(decimal_digits(n / 10) =~= dn.take(dn.len() - 1));
        lemma_decimal_digits_injective(m / 10, n / 10);
    }
}

/// Law: different indices bear different file names.
pub proof fn lemma_collage_name_injective(m: nat, n: nat)
    requires
        spec_collage_name(m) == spec_collage_name(n),
    ensures
        m == n,
{
    reveal_strlit("collage_");
    reveal_strlit(".png");
    let p = "collage_"@;
    let s = ".png"@;
    let a = decimal_digits(m);
    let b = decimal_digits(n);
    assert(p.len() == 8 && s.len() == 4);
    assert((p + a + s).len() == (p + b + s).len());
    assert(a.len() == b.len());
    assert(a =~= b) by {
        assert forall|i: int| 0 <= i < a.len() implies a[i] == b[i] by {
            assert((p + a + s)[8 + i] == a[i]);
            assert((p + b + s)[8 + i] == b[i]);
        }
    }
    lemma_decimal_digits_injective(m, n);
}

/// Whether some existing file bears this name.
pub open spec fn name_taken(existing: Seq<String>, name: Seq<char>) -> bool {
    exists|k: int| 0 <= k < existing.len() && (#[trigger] existing[k])@ == name
}

fn contains_name(existing: &Vec<String>, name: &String) -> (r: bool)
    ensures
        r == name_taken(existing@, name@),
{
    for k in 0..existing.len()
        invariant
            forall|m: int| 0 <= m < k ==> (#[trigger] existing@[m])@ != name@,
    {
        if existing[k].eq(name) {
            return true;
        }
    }
    false
}

/// Law: scanning the indices 0, 1, 2, ... up to the number of existing
/// files always reaches a free name: the candidate names are pairwise
/// distinct, so the existing files cannot bear them all.
pub proof fn lemma_some_name_free(existing: Seq<String>)
    ensures
        exists|k: nat|
            k <= existing.len() && !name_taken(existing, spec_collage_name(k)),
{
    let len = existing.len() as int;
    if forall|k: nat| k <= existing.len() ==> name_taken(existing, #[trigger] spec_collage_name(k)) {
        let name_of = |k: int| spec_collage_name(k as nat);
        let view_of = |i: int| existing[i]@;
        let indices = set_int_range(0, len + 1);
        let slots = set_int_range(0, len);
        lemma_int_range(0, len + 1);
        lemma_int_range(0, len);
        assert(injective_on(name_of, indices)) by {
            assert forall|x1: int, x2: int|
                indices.contains(x1) && indices.contains(x2) && #[trigger] name_of(x1)
                    == #[trigger] name_of(x2) implies x1 == x2 by {
                lemma_collage_name_injective(x1 as nat, x2 as nat);
            }
        }
        let names = indices.map(name_of);
        lemma_map_size(indices, names, name_of);
        let views = slots.map(view_of);
        lemma_map_size_bound(slots, views, view_of);
        assert(names.subset_of(views)) by {
            assert forall|nm: Seq<char>| names.contains(nm) implies views.contains(nm) by {
                let k = choose|k: int| indices.contains(k) && name_of(k) == nm;
                assert(name_taken(existing, spec_collage_name(k as nat)));
                let i = choose|i: int|
                    0 <= i < existing.len() && (#[trigger] existing[i])@ == spec_collage_name(
                        k as nat,
                    );
                assert(slots.contains(i) && view_of(i) == nm);
            }
        }
        lemma_len_subset(names, views);
        assert(len + 1 <= len);
        assert(false);
    }
}

/// Pick the output file name: `collage_<n>.png` for the smallest `n`, tried
/// in the order 0, 1, 2, ..., that no existing file bears. The names are
/// pairwise distinct, so the scan always succeeds.
pub fn pick_output_name(existing: &Vec<String>) -> (r: String)
    ensures
        exists|k: nat|
            r@ == spec_collage_name(k) && !name_taken(existing@, spec_collage_name(k)) && (
            forall|m: nat| m < k ==> name_taken(existing@, spec_collage_name(m))),
{
    let n = existing.len() as u64;
    let mut num: u64 = 0;
    loop
        invariant
            num <= n,
            n == existing@.len(),
            forall|m: nat| m < num ==> name_taken(existing@, spec_collage_name(m)),
        decreases n - num,
    {
        let name = collage_file_name(num);
        if !contains_name(existing, &name) {
            proof {
                assert(name@ == spec_collage_name(num as nat) && !name_taken(
                    existing@,
                    spec_collage_name(num as nat),
                ) && (forall|m: nat|
                    m < num as nat ==> name_taken(existing@, spec_collage_name(m))));
            }
            return name;
        }
        if num == n {
            // every index up to the number of existing names is taken,
            // which the pigeonhole law rules out
            proof {
                lemma_some_name_free(existing@);
            }
            return unreached();
        }
        num = num + 1;
    }
}

} // verus!
