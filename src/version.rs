//! Allocation of collision-free migration versions.
use vstd::prelude::*;
use crate::error::Error;
use crate::text::{lemma_text_lt_common_prefix, lemma_text_lt_irreflexive, lemma_text_lt_same_len_extend, starts_with, text_lt, text_starts_with};
use crate::timestamp::{
    digit_char, format_timestamp, lemma_numeral_increasing, lemma_numeral_len, lemma_pow16, lemma_timestamp_text_increasing, lemma_timestamp_text_len,
    numeral, pow_nat, push_dash, push_numeral, timestamp_text, Timestamp,
};

verus! {

/// How many suffixes one second offers.
pub const SUFFIX_COUNT: u32 = 65536;

/// `<stamp>-<four hex digits of s>`.
pub open spec fn suffixed(stamp: Seq<char>, s: nat) -> Seq<char> {
    stamp + seq!['-'] + numeral(s, 16, 4)
}

/// Some existing entry's name starts with `v`.
pub open spec fn is_taken(v: Seq<char>, names: Seq<String>) -> bool {
    exists|i: int| 0 <= i < names.len() && #[trigger] starts_with(names[i]@, v)
}

/// `s` is the smallest suffix whose version no entry starts with.
pub open spec fn is_first_free_suffix(stamp: Seq<char>, names: Seq<String>, s: nat) -> bool {
    &&& s < SUFFIX_COUNT
    &&& !is_taken(suffixed(stamp, s), names)
    &&& forall|k: nat| k < s ==> #[trigger] is_taken(suffixed(stamp, k), names)
}

/// Every suffix of `stamp` is taken.
pub open spec fn all_suffixes_taken(stamp: Seq<char>, names: Seq<String>) -> bool {
    forall|k: nat| k < SUFFIX_COUNT ==> #[trigger] is_taken(suffixed(stamp, k), names)
}

/// `v` is what allocation yields without an explicit version at `now`.
pub open spec fn is_allocated_at(v: Seq<char>, now: Timestamp, names: Seq<String>) -> bool {
    exists|s: nat| is_first_free_suffix(timestamp_text(now), names, s) && v == suffixed(timestamp_text(now), s)
}

/// `<version>_<name>`.
pub open spec fn dir_name(version: Seq<char>, name: Seq<char>) -> Seq<char> {
    version + seq!['_'] + name
}

/// The value of a lowercase hexadecimal digit.
pub fn hex_digit_value(c: char) -> (r: Option<u32>)
    ensures
        r matches Some(d) ==> d < 16 && digit_char(d as nat) == c,
        r is None ==> forall|d: nat| d < 16 ==> digit_char(d) != c,
{
    match c {
        '0' => Some(0),
        '1' => Some(1),
        '2' => Some(2),
        '3' => Some(3),
        '4' => Some(4),
        '5' => Some(5),
        '6' => Some(6),
        '7' => Some(7),
        '8' => Some(8),
        '9' => Some(9),
        'a' => Some(10),
        'b' => Some(11),
        'c' => Some(12),
        'd' => Some(13),
        'e' => Some(14),
        'f' => Some(15),
        _ => None,
    }
}

pub proof fn lemma_numeral_injective(x: nat, y: nat)
    requires
        x < SUFFIX_COUNT,
        y < SUFFIX_COUNT,
        numeral(x, 16, 4) == numeral(y, 16, 4),
    ensures
        x == y,
{
    lemma_pow16();
    if x < y {
        lemma_numeral_increasing(x, y, 16, 4);
        lemma_text_lt_irreflexive(numeral(x, 16, 4));
    } else if y < x {
        lemma_numeral_increasing(y, x, 16, 4);
        lemma_text_lt_irreflexive(numeral(x, 16, 4));
    }
}

pub proof fn lemma_numeral_digits(n: nat, w: nat, j: int)
    requires
        0 <= j < w,
    ensures
        exists|d: nat| d < 16 && numeral(n, 16, w)[j] == digit_char(d),
    decreases w,
{
    lemma_numeral_len(n / 16, 16, (w - 1) as nat);
    if j < w - 1 {
        lemma_numeral_digits(n / 16, (w - 1) as nat, j);
    } else {
        assert(numeral(n, 16, w)[j] == digit_char(n % 16));
    }
}

/// A name that starts with `pfx` and a suffix carries the suffix's digits right after `pfx`.
proof fn lemma_suffix_position(name: Seq<char>, pfx: Seq<char>, s: nat)
    requires
        starts_with(name, pfx + numeral(s, 16, 4)),
    ensures
        starts_with(name, pfx),
        pfx.len() + 4 <= name.len(),
        name.subrange(pfx.len() as int, pfx.len() + 4int) == numeral(s, 16, 4),
{
    let k = pfx.len() as int;
    lemma_numeral_len(s, 16, 4);
    let full = pfx + numeral(s, 16, 4);
    assert forall|i: int| 0 <= i < k + 4 implies name[i] == full[i] by {
        assert(name.subrange(0, full.len() as int)[i] == full[i]);
    }
    assert(name.subrange(0, k) =~= pfx);
    assert forall|i: int| 0 <= i < 4 implies name.subrange(k, k + 4)[i] == numeral(s, 16, 4)[i] by {
        assert(name[k + i] == full[k + i]);
    }
    assert(name.subrange(k, k + 4) =~= numeral(s, 16, 4));
}

/// The suffix that `name` carries right after `pfx`, if it carries one.
fn suffix_after(name: &String, pfx: &String) -> (r: Option<u32>)
    ensures
        r matches Some(v) ==> v < SUFFIX_COUNT && starts_with(name@, pfx@ + numeral(v as nat, 16, 4)),
        forall|s: nat|
            s < SUFFIX_COUNT && #[trigger] starts_with(name@, pfx@ + numeral(s, 16, 4)) ==> r == Some(
                s as u32,
            ),
{
    let n = name.unicode_len();
    let k = pfx.unicode_len();
    if !text_starts_with(name.as_str(), pfx.as_str()) || n < 4 || k > n - 4 {
        assert forall|s: nat| s < SUFFIX_COUNT implies !starts_with(name@, pfx@ + numeral(s, 16, 4)) by {
            if starts_with(name@, pfx@ + numeral(s, 16, 4)) {
                lemma_suffix_position(name@, pfx@, s);
            }
        }
        return None;
    }
    let mut v: u32 = 0;
    let mut j: u32 = 0;
    while j < 4
        invariant
            n == name@.len(),
            k == pfx@.len(),
            k + 4 <= n,
            j <= 4,
            v < pow_nat(16, j as nat),
            numeral(v as nat, 16, j as nat) == name@.subrange(k as int, k + j),
        decreases 4 - j,
    {
        let c = name.as_str().get_char(k + j as usize);
        match hex_digit_value(c) {
            Some(d) => {
                assert(v * 16 + d < pow_nat(16, (j + 1) as nat)) by (nonlinear_arith)
                    requires
                        v < pow_nat(16, j as nat),
                        d < 16,
                        pow_nat(16, (j + 1) as nat) == 16 * pow_nat(16, j as nat),
                ;
                assert(pow_nat(16, 4) == 65536) by {
                    lemma_pow16();
                }
                assert(pow_nat(16, j as nat) <= 4096) by {
                    lemma_pow16();
                }
                let nv = v * 16 + d;
                assert((nv as nat) / 16 == v as nat && (nv as nat) % 16 == d as nat);
                assert(numeral(nv as nat, 16, (j + 1) as nat) =~= name@.subrange(k as int, k + j + 1));
                v = nv;
            },
            None => {
                assert forall|s: nat| s < SUFFIX_COUNT implies !starts_with(name@, pfx@ + numeral(s, 16, 4)) by {
                    if starts_with(name@, pfx@ + numeral(s, 16, 4)) {
                        lemma_suffix_position(name@, pfx@, s);
                        lemma_numeral_len(s, 16, 4);
                        lemma_numeral_digits(s, 4, j as int);
                        assert(name@.subrange(k as int, k + 4)[j as int] == c);
                        let d = choose|d: nat| d < 16 && numeral(s, 16, 4)[j as int] == digit_char(d);
                        assert(digit_char(d) == c);
                    }
                }
                return None;
            },
        }
        j = j + 1;
    }
    assert(pow_nat(16, 4) == 65536) by {
        lemma_pow16();
    }
    proof {
        lemma_numeral_len(v as nat, 16, 4);
    }
    assert(name@.subrange(0, k + 4) =~= pfx@ + numeral(v as nat, 16, 4));
    assert forall|s: nat| s < SUFFIX_COUNT && #[trigger] starts_with(name@, pfx@ + numeral(s, 16, 4)) implies s
        == v by {
        lemma_suffix_position(name@, pfx@, s);
        lemma_numeral_injective(s, v as nat);
    }
    Some(v)
}

/// Chooses the version of a new migration.
///
/// An explicit version is taken as it is, unless an existing entry's name starts
/// with it. Otherwise the version is the timestamp of `now` followed by the
/// smallest four-digit hexadecimal suffix that no existing entry's name starts with.
pub fn allocate_version(explicit: Option<String>, now: &Timestamp, existing: &Vec<String>) -> (r: Result<
    String,
    Error,
>)
    requires
        now.wf(),
    ensures
        explicit is Some && is_taken(explicit->Some_0@, existing@) ==> r == Err::<String, Error>(
            Error::DuplicateMigrationVersion(explicit->Some_0),
        ),
        explicit is Some && !is_taken(explicit->Some_0@, existing@) ==> (r matches Ok(x) && x@
            == explicit->Some_0@),
        explicit is None && all_suffixes_taken(timestamp_text(*now), existing@) ==> (r matches Err(
            Error::TooManyMigrations(x),
        ) && x@ == timestamp_text(*now)),
        explicit is None && !all_suffixes_taken(timestamp_text(*now), existing@) ==> (r matches Ok(x)
            && is_allocated_at(x@, *now, existing@)),
{
    match explicit {
        Some(v) => {
            let mut i: usize = 0;
            while i < existing.len()
                invariant
                    explicit == Some(v),
                    i <= existing@.len(),
                    forall|j: int| 0 <= j < i ==> !starts_with(#[trigger] existing@[j]@, v@),
                decreases existing.len() - i,
            {
                if text_starts_with(existing[i].as_str(), v.as_str()) {
                    assert(starts_with(existing@[i as int]@, v@));
                    assert(is_taken(v@, existing@));
                    return Err(Error::DuplicateMigrationVersion(v));
                }
                i = i + 1;
            }
            Ok(v)
        },
        None => {
            let stamp = format_timestamp(now);
            let ghost st = stamp@;
            let mut pfx = stamp.clone();
            push_dash(&mut pfx);
            let mut used: Vec<bool> = Vec::new();
            while used.len() < 65536
                invariant
                    used@.len() <= 65536,
                    forall|k: int| 0 <= k < used@.len() ==> !used@[k],
                decreases 65536 - used@.len(),
            {
                used.push(false);
            }
            let mut i: usize = 0;
            while i < existing.len()
                invariant
                    i <= existing@.len(),
                    pfx@ == st + seq!['-'],
                    used@.len() == 65536,
                    forall|s: nat|
                        s < SUFFIX_COUNT ==> (used@[s as int] <==> exists|j: int|
                            0 <= j < i && #[trigger] starts_with(existing@[j]@, suffixed(st, s))),
                decreases existing.len() - i,
            {
                let r = suffix_after(&existing[i], &pfx);
                let ghost old_used = used@;
                if let Some(v) = r {
                    used.set(v as usize, true);
                }
                assert forall|s: nat| s < SUFFIX_COUNT implies (used@[s as int] <==> exists|j: int|
                    0 <= j < i + 1 && #[trigger] starts_with(existing@[j]@, suffixed(st, s))) by {
                    assert(suffixed(st, s) == pfx@ + numeral(s, 16, 4));
                    if used@[s as int] && !old_used[s as int] {
                        assert(starts_with(existing@[i as int]@, suffixed(st, s)));
                    }
                    if exists|j: int| 0 <= j < i + 1 && #[trigger] starts_with(existing@[j]@, suffixed(st, s)) {
                        let j = choose|j: int| 0 <= j < i + 1 && #[trigger] starts_with(existing@[j]@, suffixed(st, s));
                        if j == i {
                            assert(starts_with(existing@[i as int]@, pfx@ + numeral(s, 16, 4)));
                        }
                    }
                }
                i = i + 1;
            }
            let mut s: u32 = 0;
            while s < 65536 && used[s as usize]
                invariant
                    s <= 65536,
                    used@.len() == 65536,
                    forall|k: nat| k < s ==> used@[k as int],
                decreases 65536 - s,
            {
                s = s + 1;
            }
            assert forall|k: nat| k < SUFFIX_COUNT implies (used@[k as int] <==> #[trigger] is_taken(
                suffixed(st, k),
                existing@,
            )) by {
                if used@[k as int] {
                    let j = choose|j: int| 0 <= j < existing@.len() && #[trigger] starts_with(existing@[j]@, suffixed(st, k));
                    assert(starts_with(existing@[j]@, suffixed(st, k)));
                }
            }
            if s == 65536 {
                return Err(Error::TooManyMigrations(stamp));
            }
            assert(!is_taken(suffixed(st, s as nat), existing@));
            assert(is_first_free_suffix(st, existing@, s as nat));
            push_numeral(&mut pfx, s, 16, 4);
            Ok(pfx)
        },
    }
}

/// The name of a new migration's directory: `<version>_<name>`.
pub fn migration_dir_name(version: &str, name: &str) -> (r: String)
    ensures
        r@ == dir_name(version@, name@),
{
    let mut s = version.to_owned();
    let sep = "_";
    proof {
        reveal_strlit("_");
    }
    assert(sep@ =~= seq!['_']);
    s.append(sep);
    s.append(name);
    s
}

/// Allocates a version as `allocate_version` does and names the new entry's directory.
pub fn new_migration_dir_name(explicit: Option<String>, now: &Timestamp, existing: &Vec<String>, name: &str) -> (r:
    Result<String, Error>)
    requires
        now.wf(),
    ensures
        explicit is Some && is_taken(explicit->Some_0@, existing@) ==> r == Err::<String, Error>(
            Error::DuplicateMigrationVersion(explicit->Some_0),
        ),
        explicit is Some && !is_taken(explicit->Some_0@, existing@) ==> (r matches Ok(x) && x@
            == dir_name(explicit->Some_0@, name@)),
        explicit is None && all_suffixes_taken(timestamp_text(*now), existing@) ==> (r matches Err(
            Error::TooManyMigrations(x),
        ) && x@ == timestamp_text(*now)),
        explicit is None && !all_suffixes_taken(timestamp_text(*now), existing@) ==> (r matches Ok(x)
            && exists|v: Seq<char>| is_allocated_at(v, *now, existing@) && x@ == dir_name(v, name@)),
{
    match allocate_version(explicit, now, existing) {
        Ok(v) => Ok(migration_dir_name(v.as_str(), name)),
        Err(e) => Err(e),
    }
}

/// An entry named `<v>_<name>` takes the version `v`: an explicit request for
/// `v` is then refused as a duplicate.
pub proof fn lemma_existing_version_taken(v: Seq<char>, name: Seq<char>, names: Seq<String>, i: int)
    requires
        0 <= i < names.len(),
        names[i]@ == dir_name(v, name),
    ensures
        is_taken(v, names),
{
    assert(names[i]@.subrange(0, v.len() as int) =~= v);
    assert(starts_with(names[i]@, v));
}

/// Versions allocated in sequence increase: when the clock has not gone back
/// and the store still holds every earlier entry plus the one made with the
/// first version, the second version is lexicographically larger.
pub proof fn lemma_allocation_increasing(
    now1: Timestamp,
    now2: Timestamp,
    names1: Seq<String>,
    names2: Seq<String>,
    v1: Seq<char>,
    v2: Seq<char>,
)
    requires
        now1.wf(),
        now2.wf(),
        now1 == now2 || now1.before(now2),
        is_allocated_at(v1, now1, names1),
        forall|i: int| 0 <= i < names1.len() ==> names2.contains(#[trigger] names1[i]),
        is_taken(v1, names2),
        is_allocated_at(v2, now2, names2),
    ensures
        text_lt(v1, v2),
{
    let st1 = timestamp_text(now1);
    let st2 = timestamp_text(now2);
    let s1 = choose|s: nat| is_first_free_suffix(st1, names1, s) && v1 == suffixed(st1, s);
    let s2 = choose|s: nat| is_first_free_suffix(st2, names2, s) && v2 == suffixed(st2, s);
    lemma_numeral_len(s1, 16, 4);
    lemma_numeral_len(s2, 16, 4);
    lemma_timestamp_text_len(now1);
    lemma_timestamp_text_len(now2);
    lemma_pow16();
    if now1 == now2 {
        if s2 < s1 {
            assert(is_taken(suffixed(st1, s2), names1));
            let i = choose|i: int| 0 <= i < names1.len() && #[trigger] starts_with(names1[i]@, suffixed(st1, s2));
            assert(names2.contains(names1[i]));
            let j = choose|j: int| 0 <= j < names2.len() && names2[j] == names1[i];
            assert(starts_with(names2[j]@, suffixed(st2, s2)));
            assert(false);
        }
        assert(s1 != s2);
        lemma_numeral_increasing(s1, s2, 16, 4);
        lemma_text_lt_common_prefix(st1 + seq!['-'], numeral(s1, 16, 4), numeral(s2, 16, 4));
    } else {
        lemma_timestamp_text_increasing(now1, now2);
        lemma_text_lt_same_len_extend(st1, st2, seq!['-'] + numeral(s1, 16, 4), seq!['-'] + numeral(s2, 16, 4));
        assert(v1 =~= st1 + (seq!['-'] + numeral(s1, 16, 4)));
        assert(v2 =~= st2 + (seq!['-'] + numeral(s2, 16, 4)));
    }
}

} // verus!
