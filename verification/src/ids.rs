//! Device ids: their text form, reading them back, and putting them in order.
use vstd::prelude::*;
use vstd::arithmetic::power::{lemma_pow_positive, pow};
use vstd::arithmetic::div_mod::{lemma_basic_div, lemma_div_denominator, lemma_fundamental_div_mod};
use vstd::relations::{sorted_by, total_ordering};
use crate::player::DeviceId;

verus! {

/// The lower-case hexadecimal digit for a value below 16.
pub open spec fn hex_digit(d: int) -> char {
    if d < 10 {
        (d + 48) as char
    } else {
        (d + 87) as char
    }
}

/// The `i`-th hexadecimal digit of `u`, counted from the most significant (0 <= i < 32).
pub open spec fn nibble(u: DeviceId, i: int) -> int {
    (u as int / pow(16, (31 - i) as nat)) % 16
}

/// How many hyphens come before position `j` of the hyphenated form.
pub open spec fn hyphens_before(j: int) -> int {
    if j < 8 {
        0
    } else if j < 13 {
        1
    } else if j < 18 {
        2
    } else if j < 23 {
        3
    } else {
        4
    }
}

/// The hyphenated lower-case text of a UUID: 32 hexadecimal digits, most significant
/// first, in groups of 8-4-4-4-12 joined by hyphens.
pub open spec fn uuid_hyphenated(u: DeviceId) -> Seq<char> {
    Seq::new(
        36,
        |j: int|
            if j == 8 || j == 13 || j == 18 || j == 23 {
                '-'
            } else {
                hex_digit(nibble(u, j - hyphens_before(j)))
            },
    )
}

/// What `uuid::Uuid::parse_str` reads from a text, as the 128-bit value of the UUID.
pub uninterp spec fn spec_parse_uuid(text: Seq<char>) -> Option<DeviceId>;

/// The text form of a device id.
///
/// Trusted: calls the `Display` implementation of `uuid::Uuid`, which writes the
/// hyphenated lower-case form of the 16 bytes of the id, most significant first.
#[verifier::external_body]
pub(crate) fn device_id_text(id: DeviceId) -> (text: String)
    ensures
        text@ == uuid_hyphenated(id),
{
    uuid::Uuid::from_u128(id).to_string()
}

/// Reads a device id from a text.
///
/// Trusted: calls `uuid::Uuid::parse_str`, which accepts the simple, hyphenated, braced
/// and URN forms in either case. The result is named by `spec_parse_uuid`; the contract
/// also claims that the hyphenated form written by `device_id_text` reads back as the
/// same id, which the crate's documentation states for the formats it generates.
#[verifier::external_body]
pub(crate) fn parse_device_id(text: &str) -> (r: Option<DeviceId>)
    ensures
        r == spec_parse_uuid(text@),
        forall|u: DeviceId| text@ == #[trigger] uuid_hyphenated(u) ==> r == Some(u),
{
    match uuid::Uuid::parse_str(text) {
        Ok(u) => Some(u.as_u128()),
        Err(_) => None,
    }
}

/// The device id that a text reads as: the id whose hyphenated form the text is, when it
/// is one (the form that `device_id_text` writes), and otherwise what `uuid::Uuid::parse_str`
/// reads from it. This is what `parse_device_id` returns.
pub open spec fn read_device_id(text: Seq<char>) -> Option<DeviceId> {
    if exists|u: DeviceId| text == #[trigger] uuid_hyphenated(u) {
        Some(choose|u: DeviceId| text == #[trigger] uuid_hyphenated(u))
    } else {
        spec_parse_uuid(text)
    }
}

/// Two hexadecimal digits with the same character are the same digit.
proof fn lemma_hex_digit_injective(a: int, b: int)
    requires
        0 <= a < 16,
        0 <= b < 16,
        hex_digit(a) == hex_digit(b),
    ensures
        a == b,
{
    assert(hex_digit(a) as int == if a < 10 { a + 48 } else { a + 87 });
    assert(hex_digit(b) as int == if b < 10 { b + 48 } else { b + 87 });
}

/// Ids with the same hexadecimal digits have the same quotient by every power of 16.
proof fn lemma_quotients_agree(u: DeviceId, v: DeviceId, k: nat)
    requires
        k <= 32,
        forall|i: int| 0 <= i < 32 ==> #[trigger] nibble(u, i) == nibble(v, i),
    ensures
        u as int / pow(16, k) == v as int / pow(16, k),
    decreases 32 - k,
{
    lemma_pow_positive(16, k);
    if k == 32 {
        assert(pow(16, 32) == 0x1_0000_0000_0000_0000_0000_0000_0000_0000int) by {
            reveal_with_fuel(pow, 33);
        }
        lemma_basic_div(u as int, pow(16, 32));
        lemma_basic_div(v as int, pow(16, 32));
    } else {
        lemma_quotients_agree(u, v, k + 1);
        assert(pow(16, k + 1) == 16 * pow(16, k)) by {
            reveal(pow);
        }
        lemma_div_denominator(u as int, 16, pow(16, k));
        lemma_div_denominator(v as int, 16, pow(16, k));
        let qu = u as int / pow(16, k);
        let qv = v as int / pow(16, k);
        assert(qu / 16 == qv / 16) by {
            lemma_div_denominator(u as int, pow(16, k), 16);
            lemma_div_denominator(v as int, pow(16, k), 16);
            assert(pow(16, k) * 16 == 16 * pow(16, k));
        }
        assert(nibble(u, 31 - k) == nibble(v, 31 - k));
        assert((31 - (31 - k)) as nat == k);
        assert(qu % 16 == qv % 16);
        lemma_fundamental_div_mod(qu, 16);
        lemma_fundamental_div_mod(qv, 16);
    }
}

/// Different ids have different hyphenated forms.
pub proof fn lemma_hyphenated_injective(u: DeviceId, v: DeviceId)
    requires
        uuid_hyphenated(u) == uuid_hyphenated(v),
    ensures
        u == v,
{
    assert forall|i: int| 0 <= i < 32 implies #[trigger] nibble(u, i) == nibble(v, i) by {
        let j = if i < 8 {
            i
        } else if i < 12 {
            i + 1
        } else if i < 16 {
            i + 2
        } else if i < 20 {
            i + 3
        } else {
            i + 4
        };
        assert(0 <= j < 36 && j != 8 && j != 13 && j != 18 && j != 23);
        assert(j - hyphens_before(j) == i);
        assert(uuid_hyphenated(u)[j] == hex_digit(nibble(u, i)));
        assert(uuid_hyphenated(v)[j] == hex_digit(nibble(v, i)));
        lemma_pow_positive(16, (31 - i) as nat);
        vstd::arithmetic::div_mod::lemma_mod_bound(u as int / pow(16, (31 - i) as nat), 16);
        vstd::arithmetic::div_mod::lemma_mod_bound(v as int / pow(16, (31 - i) as nat), 16);
        lemma_hex_digit_injective(nibble(u, i), nibble(v, i));
    }
    lemma_quotients_agree(u, v, 0);
    assert(pow(16, 0) == 1) by {
        reveal(pow);
    }
}

/// The hyphenated form of an id reads as that id.
pub proof fn lemma_read_hyphenated(u: DeviceId)
    ensures
        read_device_id(uuid_hyphenated(u)) == Some(u),
{
    let text = uuid_hyphenated(u);
    assert(exists|w: DeviceId| text == #[trigger] uuid_hyphenated(w));
    let w = choose|w: DeviceId| text == #[trigger] uuid_hyphenated(w);
    lemma_hyphenated_injective(u, w);
}

/// Ascending order of device ids.
pub open spec fn id_leq() -> spec_fn(DeviceId, DeviceId) -> bool {
    |a: DeviceId, b: DeviceId| a <= b
}

/// The ids of `s` in ascending order.
pub open spec fn sorted_ids(s: Seq<DeviceId>) -> Seq<DeviceId> {
    s.sort_by(id_leq())
}

/// Two ascending sequences with the same elements are equal.
pub proof fn lemma_sorted_unique(a: Seq<DeviceId>, b: Seq<DeviceId>)
    requires
        sorted_by(a, id_leq()),
        sorted_by(b, id_leq()),
        a.to_multiset() == b.to_multiset(),
    ensures
        a == b,
    decreases a.len(),
{
    broadcast use vstd::seq_lib::group_to_multiset_ensures;

    assert(a.len() == a.to_multiset().len());
    assert(b.len() == b.to_multiset().len());
    if a.len() > 0 {
        assert(a.contains(a[0]));
        assert(b.to_multiset().count(a[0]) > 0);
        let j = choose|j: int| 0 <= j < b.len() && b[j] == a[0];
        assert(b.contains(b[0]));
        assert(a.to_multiset().count(b[0]) > 0);
        let i = choose|i: int| 0 <= i < a.len() && a[i] == b[0];
        if j > 0 {
            assert(id_leq()(b[0], b[j]));
        }
        if i > 0 {
            assert(id_leq()(a[0], a[i]));
        }
        assert(a[0] == b[0]);
        assert(a.remove(0) == a.drop_first());
        assert(b.remove(0) == b.drop_first());
        assert(a.drop_first().to_multiset() == a.to_multiset().remove(a[0]));
        assert(b.drop_first().to_multiset() == b.to_multiset().remove(b[0]));
        assert(sorted_by(a.drop_first(), id_leq())) by {
            assert forall|x: int, y: int| 0 <= x < y < a.drop_first().len() implies #[trigger] id_leq()(
                a.drop_first()[x],
                a.drop_first()[y],
            ) by {
                assert(id_leq()(a[x + 1], a[y + 1]));
            }
        }
        assert(sorted_by(b.drop_first(), id_leq())) by {
            assert forall|x: int, y: int| 0 <= x < y < b.drop_first().len() implies #[trigger] id_leq()(
                b.drop_first()[x],
                b.drop_first()[y],
            ) by {
                assert(id_leq()(b[x + 1], b[y + 1]));
            }
        }
        lemma_sorted_unique(a.drop_first(), b.drop_first());
        assert forall|k: int| 0 <= k < a.len() implies a[k] == b[k] by {
            if k > 0 {
                assert(a[k] == a.drop_first()[k - 1]);
                assert(b[k] == b.drop_first()[k - 1]);
            }
        }
        assert(a =~= b);
    } else {
        assert(a =~= b);
    }
}

/// An ascending sequence with the elements of `s` is the sorted form of `s`.
pub proof fn lemma_is_sorted_ids(r: Seq<DeviceId>, s: Seq<DeviceId>)
    requires
        sorted_by(r, id_leq()),
        r.to_multiset() == s.to_multiset(),
    ensures
        r == sorted_ids(s),
{
    assert(total_ordering(id_leq()));
    s.lemma_sort_by_ensures(id_leq());
    lemma_sorted_unique(r, sorted_ids(s));
}

/// The ids of `v` in ascending order.
pub fn sort_ids(v: &Vec<DeviceId>) -> (r: Vec<DeviceId>)
    ensures
        r@ == sorted_ids(v@),
{
    broadcast use vstd::seq_lib::group_to_multiset_ensures;

    let mut r: Vec<DeviceId> = Vec::new();
    let n = v.len();
    let mut i: usize = 0;
    assert(v@.take(0) =~= Seq::<DeviceId>::empty());
    while i < n
        invariant
            n == v@.len(),
            i <= n,
            sorted_by(r@, id_leq()),
            r@.to_multiset() == v@.take(i as int).to_multiset(),
        decreases n - i,
    {
        let x = v[i];
        // position of the first element greater than x
        let m = r.len();
        let mut p: usize = 0;
        while p < m && r[p] <= x
            invariant
                m == r@.len(),
                p <= m,
                forall|k: int| 0 <= k < p ==> r@[k] <= x,
            decreases m - p,
        {
            p = p + 1;
        }
        let ghost before = r@;
        r.insert(p, x);
        proof {
            assert(forall|k: int| p <= k < m ==> before[k] > x) by {
                assert forall|k: int| p <= k < m implies before[k] > x by {
                    if p < m {
                        assert(before[p as int] > x);
                        if k > p {
                            assert(id_leq()(before[p as int], before[k]));
                        }
                    }
                }
            }
            assert forall|a: int, b: int| 0 <= a < b < r@.len() implies #[trigger] id_leq()(
                r@[a],
                r@[b],
            ) by {
                if b < p {
                    assert(id_leq()(before[a], before[b]));
                } else if a > p {
                    assert(id_leq()(before[a - 1], before[b - 1]));
                } else if a < p && b > p {
                    assert(before[a] <= x && x < before[b - 1]);
                }
            }
            assert(v@.take(i + 1) =~= v@.take(i as int).push(x));
            assert(r@ == before.insert(p as int, x));
            vstd::seq_lib::to_multiset_insert(before, p as int, x);
            vstd::seq_lib::to_multiset_build(v@.take(i as int), x);
        }
        i = i + 1;
    }
    assert(v@.take(n as int) =~= v@);
    proof {
        lemma_is_sorted_ids(r@, v@);
    }
    r
}

/// The sorted form of `s` holds exactly the ids of `s`.
pub proof fn lemma_sorted_contains(s: Seq<DeviceId>, x: DeviceId)
    ensures
        sorted_ids(s).contains(x) <==> s.contains(x),
{
    broadcast use vstd::seq_lib::group_to_multiset_ensures;

    assert(total_ordering(id_leq()));
    s.lemma_sort_by_ensures(id_leq());
    assert(sorted_ids(s).to_multiset().count(x) == s.to_multiset().count(x));
}

} // verus!
