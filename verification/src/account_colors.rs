//! Account colours: which stored colours are usable, the colour an account
//! falls back to, and the colours handed out when accounts that have none
//! are given one.

use vstd::prelude::*;
use vstd::utf8::encode_utf8;
use vstd::wrapping::u32_specs::{wrapping_add, wrapping_mul};

verus! {

/// How many preset colours there are.
pub const PRESET_COUNT: usize = 12;

/// The preset colours, in the order they are handed out.
pub open spec fn preset_spec(i: int) -> Seq<char> {
    if i == 0 { seq!['#', '0', 'e', 'a', '5', 'e', '9'] }
    else if i == 1 { seq!['#', '2', '2', 'c', '5', '5', 'e'] }
    else if i == 2 { seq!['#', 'f', '5', '9', 'e', '0', 'b'] }
    else if i == 3 { seq!['#', '8', 'b', '5', 'c', 'f', '6'] }
    else if i == 4 { seq!['#', 'f', '4', '3', 'f', '5', 'e'] }
    else if i == 5 { seq!['#', '1', '4', 'b', '8', 'a', '6'] }
    else if i == 6 { seq!['#', '6', '3', '6', '6', 'f', '1'] }
    else if i == 7 { seq!['#', 'f', '9', '7', '3', '1', '6'] }
    else if i == 8 { seq!['#', '0', '6', 'b', '6', 'd', '4'] }
    else if i == 9 { seq!['#', 'e', 'c', '4', '8', '9', '9'] }
    else if i == 10 { seq!['#', '8', '4', 'c', 'c', '1', '6'] }
    else { seq!['#', '3', 'b', '8', '2', 'f', '6'] }
}

/// The bytes of an ASCII character sequence.
pub open spec fn ascii_bytes(s: Seq<char>) -> Seq<u8> {
    s.map_values(|c: char| c as u8)
}

/// The preset colours as bytes.
pub open spec fn preset_bytes(i: int) -> Seq<u8> {
    ascii_bytes(preset_spec(i))
}

/// An ASCII hexadecimal digit, either case.
pub open spec fn is_hex_byte(b: u8) -> bool {
    (48 <= b <= 57) || (97 <= b <= 102) || (65 <= b <= 70)
}

/// `#` followed by six hexadecimal digits, over the bytes of a string.
pub open spec fn is_valid_color_bytes(b: Seq<u8>) -> bool {
    &&& b.len() == 7
    &&& b[0] == 35
    &&& forall|i: int| 1 <= i < 7 ==> is_hex_byte(#[trigger] b[i])
}

/// ASCII uppercase bytes lowered; every other byte unchanged.
pub open spec fn lower_byte(b: u8) -> u8 {
    if 65 <= b <= 90 { (b + 32) as u8 } else { b }
}

/// The bytes with ASCII letters lowered, as `str::to_ascii_lowercase` does.
pub open spec fn lower_bytes(b: Seq<u8>) -> Seq<u8> {
    b.map_values(|x: u8| lower_byte(x))
}

/// The hash an account id is turned into, over its UTF-8 bytes:
/// `h = h * 31 + byte`, in wrapping 32-bit arithmetic, from zero.
pub open spec fn color_hash(bytes: Seq<u8>) -> u32
    decreases bytes.len(),
{
    if bytes.len() == 0 {
        0
    } else {
        wrapping_add(wrapping_mul(color_hash(bytes.drop_last()), 31), bytes.last() as u32)
    }
}

/// The preset an id falls back to.
pub open spec fn derived_color_spec(seed: Seq<char>) -> Seq<char> {
    preset_spec((color_hash(encode_utf8(seed)) as int) % (PRESET_COUNT as int))
}

/// The preset with the given index.
pub fn preset_color(i: usize) -> (r: &'static str)
    requires
        i < PRESET_COUNT,
    ensures
        r@ == preset_spec(i as int),
        encode_utf8(r@) == preset_bytes(i as int),
{
    let r = if i == 0 { "#0ea5e9" }
    else if i == 1 { "#22c55e" }
    else if i == 2 { "#f59e0b" }
    else if i == 3 { "#8b5cf6" }
    else if i == 4 { "#f43f5e" }
    else if i == 5 { "#14b8a6" }
    else if i == 6 { "#6366f1" }
    else if i == 7 { "#f97316" }
    else if i == 8 { "#06b6d4" }
    else if i == 9 { "#ec4899" }
    else if i == 10 { "#84cc16" }
    else { "#3b82f6" };
    proof {
        reveal_strlit("#0ea5e9");
        reveal_strlit("#22c55e");
        reveal_strlit("#f59e0b");
        reveal_strlit("#8b5cf6");
        reveal_strlit("#f43f5e");
        reveal_strlit("#14b8a6");
        reveal_strlit("#6366f1");
        reveal_strlit("#f97316");
        reveal_strlit("#06b6d4");
        reveal_strlit("#ec4899");
        reveal_strlit("#84cc16");
        reveal_strlit("#3b82f6");
        assert(r@ =~= preset_spec(i as int));
        assert(vstd::string::is_ascii(r));
        vstd::string::is_ascii_spec_bytes(r);
        assert(encode_utf8(r@) =~= preset_bytes(i as int));
    }
    r
}

/// Whether a byte is an ASCII hexadecimal digit.
fn is_hex_digit(b: u8) -> (r: bool)
    ensures
        r == is_hex_byte(b),
{
    (48 <= b && b <= 57) || (97 <= b && b <= 102) || (65 <= b && b <= 70)
}

/// Whether a stored colour is usable: `#` and six hexadecimal digits.
pub fn is_valid_account_color(color: &str) -> (r: bool)
    ensures
        r == is_valid_color_bytes(encode_utf8(color@)),
{
    let b = color.as_bytes();
    if b.len() != 7 || b[0] != 35 {
        return false;
    }
    let mut i: usize = 1;
    while i < 7
        invariant
            b@ == encode_utf8(color@),
            b@.len() == 7,
            1 <= i <= 7,
            forall|k: int| 1 <= k < i ==> is_hex_byte(#[trigger] b@[k]),
        decreases 7 - i,
    {
        if !is_hex_digit(b[i]) {
            return false;
        }
        i = i + 1;
    }
    true
}

/// The index of the preset an id falls back to.
pub open spec fn derived_index_spec(seed: Seq<char>) -> int {
    (color_hash(encode_utf8(seed)) as int) % (PRESET_COUNT as int)
}

/// The preset an account falls back to when every preset is taken: one
/// chosen by a hash of its id, so the same id always gets the same colour.
pub fn derive_account_color(seed: &str) -> (r: String)
    ensures
        r@ == derived_color_spec(seed@),
{
    let index = derive_account_color_index(seed);
    preset_color(index).to_owned()
}

/// The index of the preset `derive_account_color` picks.
fn derive_account_color_index(seed: &str) -> (r: usize)
    ensures
        r == derived_index_spec(seed@),
        r < PRESET_COUNT,
{
    let bytes = seed.as_bytes();
    let mut hash: u32 = 0;
    let mut i: usize = 0;
    while i < bytes.len()
        invariant
            bytes@ == encode_utf8(seed@),
            0 <= i <= bytes@.len(),
            hash == color_hash(bytes@.take(i as int)),
        decreases bytes@.len() - i,
    {
        assert(bytes@.take(i as int + 1).drop_last() =~= bytes@.take(i as int));
        hash = hash.wrapping_mul(31).wrapping_add(bytes[i] as u32);
        i = i + 1;
    }
    assert(bytes@.take(bytes@.len() as int) =~= bytes@);
    (hash as usize) % PRESET_COUNT
}

/// An account as the colour backfill reads it: its id and the colour it
/// has stored, if any.
pub struct AccountColorRow {
    pub id: String,
    pub color: Option<String>,
}

/// A colour the backfill gives an account.
pub struct ColorAssignment {
    pub id: String,
    pub color: String,
}

/// Whether an account already has a usable colour.
pub open spec fn has_valid_color(a: AccountColorRow) -> bool {
    match a.color {
        Some(c) => is_valid_color_bytes(encode_utf8(c@)),
        None => false,
    }
}

/// The colours taken before any is handed out: every usable stored
/// colour, lowered.
pub open spec fn initially_used(accounts: Seq<AccountColorRow>) -> Set<Seq<u8>> {
    Set::new(|b: Seq<u8>| exists|j: int| 0 <= j < accounts.len() && has_valid_color(#[trigger] accounts[j])
        && b == lower_bytes(encode_utf8(accounts[j].color->0@)))
}

/// The first preset, from `k` on, that is not taken.
pub open spec fn first_unused_preset(used: Set<Seq<u8>>, k: int) -> Option<int>
    decreases PRESET_COUNT - k,
{
    if k >= PRESET_COUNT || k < 0 {
        None
    } else if !used.contains(preset_bytes(k)) {
        Some(k)
    } else {
        first_unused_preset(used, k + 1)
    }
}

/// The preset an account without a colour is given: the first one not
/// taken, or, when all are taken, the one its id hashes to.
pub open spec fn chosen_index(used: Set<Seq<u8>>, id: Seq<char>) -> int {
    match first_unused_preset(used, 0) {
        Some(k) => k,
        None => derived_index_spec(id),
    }
}

/// The colours handed out to the accounts from the `i`-th on, in order,
/// each taken as soon as it is handed out.
pub open spec fn backfill_from(accounts: Seq<AccountColorRow>, i: int, used: Set<Seq<u8>>) -> Seq<(Seq<char>, Seq<char>)>
    decreases accounts.len() - i,
{
    if i >= accounts.len() || i < 0 {
        Seq::empty()
    } else if has_valid_color(accounts[i]) {
        backfill_from(accounts, i + 1, used)
    } else {
        let k = chosen_index(used, accounts[i].id@);
        seq![(accounts[i].id@, preset_spec(k))] + backfill_from(accounts, i + 1, used.insert(preset_bytes(k)))
    }
}

/// The colours to give the accounts that have no usable one, in the order
/// the accounts are listed (oldest first).
pub open spec fn backfill_spec(accounts: Seq<AccountColorRow>) -> Seq<(Seq<char>, Seq<char>)> {
    backfill_from(accounts, 0, initially_used(accounts))
}

/// The view of one assignment.
pub open spec fn assignment_view(a: ColorAssignment) -> (Seq<char>, Seq<char>) {
    (a.id@, a.color@)
}

/// Whether two byte strings are equal.
fn bytes_eq(a: &[u8], b: &[u8]) -> (r: bool)
    ensures
        r == (a@ == b@),
{
    if a.len() != b.len() {
        return false;
    }
    let mut i: usize = 0;
    while i < a.len()
        invariant
            a@.len() == b@.len(),
            0 <= i <= a@.len(),
            forall|k: int| 0 <= k < i ==> a@[k] == b@[k],
        decreases a@.len() - i,
    {
        if a[i] != b[i] {
            return false;
        }
        i = i + 1;
    }
    assert(a@ =~= b@);
    true
}

/// The byte strings a vector of byte vectors holds.
pub open spec fn byte_strings(v: Seq<Vec<u8>>) -> Seq<Seq<u8>> {
    v.map_values(|x: Vec<u8>| x@)
}

/// A preset found unused lies in range, and is not taken.
pub proof fn lemma_first_unused_in_range(used: Set<Seq<u8>>, k: int)
    requires
        0 <= k,
    ensures
        first_unused_preset(used, k) matches Some(j) ==> k <= j < PRESET_COUNT && !used.contains(preset_bytes(j)),
    decreases PRESET_COUNT - k,
{
    if k < PRESET_COUNT && used.contains(preset_bytes(k)) {
        lemma_first_unused_in_range(used, k + 1);
    }
}

/// Whether `used` holds the byte string `b`.
fn contains_bytes(used: &Vec<Vec<u8>>, b: &[u8]) -> (r: bool)
    ensures
        r == byte_strings(used@).contains(b@),
{
    let mut i: usize = 0;
    while i < used.len()
        invariant
            0 <= i <= used.len(),
            forall|k: int| 0 <= k < i ==> byte_strings(used@)[k] != b@,
        decreases used.len() - i,
    {
        if bytes_eq(used[i].as_slice(), b) {
            assert(byte_strings(used@)[i as int] == b@);
            return true;
        }
        i = i + 1;
    }
    proof {
        if byte_strings(used@).contains(b@) {
            let k = choose|k: int| 0 <= k < byte_strings(used@).len() && byte_strings(used@)[k] == b@;
            assert(byte_strings(used@)[k] != b@);
        }
    }
    false
}

/// The bytes with ASCII letters lowered.
fn lowered(b: &[u8]) -> (r: Vec<u8>)
    ensures
        r@ == lower_bytes(b@),
{
    let mut r: Vec<u8> = Vec::new();
    let mut i: usize = 0;
    while i < b.len()
        invariant
            0 <= i <= b@.len(),
            r@ == lower_bytes(b@.take(i as int)),
        decreases b@.len() - i,
    {
        let x = b[i];
        let y = if 65 <= x && x <= 90 { x + 32 } else { x };
        r.push(y);
        assert(r@ =~= lower_bytes(b@.take(i as int + 1)));
        i = i + 1;
    }
    assert(b@.take(b@.len() as int) =~= b@);
    r
}

/// Whether this account has a usable colour stored.
fn row_has_valid_color(a: &AccountColorRow) -> (r: bool)
    ensures
        r == has_valid_color(*a),
{
    match &a.color {
        Some(c) => is_valid_account_color(c.as_str()),
        None => false,
    }
}

/// The first preset, from `k` on, that `used` does not hold.
fn first_unused(used: &Vec<Vec<u8>>, Ghost(set): Ghost<Set<Seq<u8>>>) -> (r: Option<usize>)
    requires
        forall|b: Seq<u8>| byte_strings(used@).contains(b) <==> set.contains(b),
    ensures
        r == (match first_unused_preset(set, 0) {
            Some(k) => Some(k as usize),
            None => None,
        }),
        r matches Some(k) ==> k < PRESET_COUNT && first_unused_preset(set, 0) == Some(k as int),
        r is None ==> first_unused_preset(set, 0) is None,
{
    proof {
        lemma_first_unused_in_range(set, 0);
    }
    let mut k: usize = 0;
    while k < PRESET_COUNT
        invariant
            0 <= k <= PRESET_COUNT,
            forall|b: Seq<u8>| byte_strings(used@).contains(b) <==> set.contains(b),
            first_unused_preset(set, 0) == first_unused_preset(set, k as int),
        decreases PRESET_COUNT - k,
    {
        let candidate = preset_color(k);
        if !contains_bytes(used, candidate.as_bytes()) {
            return Some(k);
        }
        k = k + 1;
    }
    None
}

/// The colours to give accounts that have no usable one: the presets in
/// order, skipping any already in use (whatever its letter case), and,
/// once every preset is taken, the preset the account id hashes to.
pub fn backfill_account_colors(accounts: &Vec<AccountColorRow>) -> (plan: Vec<ColorAssignment>)
    ensures
        plan@.map_values(|a: ColorAssignment| assignment_view(a)) == backfill_spec(accounts@),
{
    let ghost accts = accounts@;
    let mut used: Vec<Vec<u8>> = Vec::new();
    let mut i: usize = 0;
    while i < accounts.len()
        invariant
            accts == accounts@,
            0 <= i <= accts.len(),
            forall|b: Seq<u8>| byte_strings(used@).contains(b) <==> (exists|j: int| 0 <= j < i && has_valid_color(#[trigger] accts[j])
                && b == lower_bytes(encode_utf8(accts[j].color->0@))),
        decreases accts.len() - i,
    {
        let ghost u0 = byte_strings(used@);
        if row_has_valid_color(&accounts[i]) {
            match &accounts[i].color {
                Some(c) => {
                    let l = lowered(c.as_str().as_bytes());
                    used.push(l);
                    assert(byte_strings(used@) =~= u0.push(lower_bytes(encode_utf8(accts[i as int].color->0@))));
                },
                None => {},
            }
        }
        proof {
            assert forall|b: Seq<u8>| byte_strings(used@).contains(b) <==> (exists|j: int| 0 <= j < i + 1 && has_valid_color(#[trigger] accts[j])
                && b == lower_bytes(encode_utf8(accts[j].color->0@))) by {
                if byte_strings(used@).contains(b) {
                    let k = choose|k: int| 0 <= k < byte_strings(used@).len() && byte_strings(used@)[k] == b;
                    if k < u0.len() {
                        assert(u0[k] == b);
                        assert(u0.contains(b));
                    }
                }
                if exists|j: int| 0 <= j < i + 1 && has_valid_color(#[trigger] accts[j])
                    && b == lower_bytes(encode_utf8(accts[j].color->0@)) {
                    let j = choose|j: int| 0 <= j < i + 1 && has_valid_color(#[trigger] accts[j])
                        && b == lower_bytes(encode_utf8(accts[j].color->0@));
                    if j < i {
                        assert(exists|j2: int| 0 <= j2 < i && has_valid_color(#[trigger] accts[j2])
                            && b == lower_bytes(encode_utf8(accts[j2].color->0@)));
                        assert(u0.contains(b));
                        let k = choose|k: int| 0 <= k < u0.len() && u0[k] == b;
                        assert(byte_strings(used@)[k] == b);
                    } else {
                        assert(byte_strings(used@)[u0.len() as int] == b);
                    }
                }
            }
        }
        i = i + 1;
    }
    let ghost start = initially_used(accts);
    assert forall|b: Seq<u8>| byte_strings(used@).contains(b) <==> start.contains(b) by {}
    let mut plan: Vec<ColorAssignment> = Vec::new();
    let ghost mut set = start;
    let mut i: usize = 0;
    while i < accounts.len()
        invariant
            accts == accounts@,
            0 <= i <= accts.len(),
            forall|b: Seq<u8>| byte_strings(used@).contains(b) <==> set.contains(b),
            plan@.map_values(|a: ColorAssignment| assignment_view(a)) + backfill_from(accts, i as int, set)
                == backfill_spec(accts),
        decreases accts.len() - i,
    {
        let ghost p0 = plan@.map_values(|a: ColorAssignment| assignment_view(a));
        if !row_has_valid_color(&accounts[i]) {
            let index = match first_unused(&used, Ghost(set)) {
                Some(k) => k,
                None => derive_account_color_index(accounts[i].id.as_str()),
            };
            assert(index == chosen_index(set, accts[i as int].id@));
            assert(!has_valid_color(accts[i as int]));
            let color = preset_color(index);
            let ghost u0 = byte_strings(used@);
            used.push(vstd::slice::slice_to_vec(color.as_bytes()));
            proof {
                assert(byte_strings(used@) =~= u0.push(preset_bytes(index as int)));
                let new_set = set.insert(preset_bytes(index as int));
                assert forall|b: Seq<u8>| byte_strings(used@).contains(b) <==> new_set.contains(b) by {
                    if byte_strings(used@).contains(b) {
                        let k = choose|k: int| 0 <= k < byte_strings(used@).len() && byte_strings(used@)[k] == b;
                        if k < u0.len() {
                            assert(u0[k] == b);
                            assert(u0.contains(b));
                        }
                    }
                    if new_set.contains(b) {
                        if set.contains(b) {
                            let k = choose|k: int| 0 <= k < u0.len() && u0[k] == b;
                            assert(byte_strings(used@)[k] == b);
                        } else {
                            assert(byte_strings(used@)[u0.len() as int] == b);
                        }
                    }
                }
            }
            let assignment = ColorAssignment { id: accounts[i].id.clone(), color: color.to_owned() };
            plan.push(assignment);
            proof {
                assert(plan@.map_values(|a: ColorAssignment| assignment_view(a)) =~= p0.push(
                    (accts[i as int].id@, preset_spec(index as int)),
                ));
                assert(backfill_from(accts, i as int, set) == seq![(accts[i as int].id@, preset_spec(index as int))]
                    + backfill_from(accts, i + 1, set.insert(preset_bytes(index as int))));
                assert(p0.push((accts[i as int].id@, preset_spec(index as int))) + backfill_from(accts, i + 1, set.insert(preset_bytes(index as int)))
                    =~= p0 + (seq![(accts[i as int].id@, preset_spec(index as int))]
                    + backfill_from(accts, i + 1, set.insert(preset_bytes(index as int)))));
                set = set.insert(preset_bytes(index as int));
            }
        }
        i = i + 1;
    }
    assert(plan@.map_values(|a: ColorAssignment| assignment_view(a)) =~= backfill_spec(accts));
    plan
}


/// Every preset is a usable colour, as stored.
pub proof fn lemma_presets_are_valid(k: int)
    requires
        0 <= k < PRESET_COUNT,
    ensures
        is_valid_color_bytes(encode_utf8(preset_spec(k))),
        encode_utf8(preset_spec(k)) == preset_bytes(k),
{
    let p = preset_spec(k);
    assert(vstd::utf8::is_ascii_chars(p));
    vstd::utf8::is_ascii_chars_encode_utf8(p);
    assert(encode_utf8(p) =~= preset_bytes(k));
    let b = preset_bytes(k);
    assert(b.len() == 7);
    assert forall|i: int| 1 <= i < 7 implies is_hex_byte(#[trigger] b[i]) by {}
}

/// The colours taken when the `q`-th colour is handed out: those in use
/// at the start, and those handed out before it.
pub open spec fn taken_before(used: Set<Seq<u8>>, given: Seq<(Seq<char>, Seq<char>)>, q: int) -> Set<Seq<u8>> {
    used.union(Set::new(|b: Seq<u8>| exists|p: int| 0 <= p < q && b == encode_utf8(#[trigger] given[p].1)))
}

/// While any preset is still free, the backfill hands out a colour nobody
/// has: not one an account already uses (whatever its letter case), and
/// not one given to an earlier account. Only once every preset is taken
/// does an account fall back to the preset its id hashes to, which may
/// repeat one.
pub proof fn lemma_backfill_hands_out_free_colours(accounts: Seq<AccountColorRow>, i: int, used: Set<Seq<u8>>)
    requires
        0 <= i <= accounts.len(),
    ensures
        forall|q: int|
            0 <= q < backfill_from(accounts, i, used).len() && first_unused_preset(
                taken_before(used, backfill_from(accounts, i, used), q),
                0,
            ) is Some ==> {
                &&& !used.contains(encode_utf8(#[trigger] backfill_from(accounts, i, used)[q].1))
                &&& forall|p: int| 0 <= p < q ==> #[trigger] backfill_from(accounts, i, used)[p].1
                    != backfill_from(accounts, i, used)[q].1
            },
    decreases accounts.len() - i,
{
    let r = backfill_from(accounts, i, used);
    if i < accounts.len() {
        if has_valid_color(accounts[i]) {
            lemma_backfill_hands_out_free_colours(accounts, i + 1, used);
            assert(r == backfill_from(accounts, i + 1, used));
        } else {
            let k = chosen_index(used, accounts[i].id@);
            let used2 = used.insert(preset_bytes(k));
            lemma_backfill_hands_out_free_colours(accounts, i + 1, used2);
            let rt = backfill_from(accounts, i + 1, used2);
            assert(r == seq![(accounts[i].id@, preset_spec(k))] + rt);
            lemma_first_unused_in_range(used, 0);
            assert(0 <= k < PRESET_COUNT);
            lemma_presets_are_valid(k);
            assert forall|q: int|
                0 <= q < r.len() && first_unused_preset(taken_before(used, r, q), 0) is Some implies {
                    &&& !used.contains(encode_utf8(#[trigger] r[q].1))
                    &&& forall|p: int| 0 <= p < q ==> #[trigger] r[p].1 != r[q].1
                } by {
                if q == 0 {
                    assert(taken_before(used, r, 0) =~= used);
                    assert(r[0].1 == preset_spec(k));
                } else {
                    assert(r[q] == rt[q - 1]);
                    assert forall|b: Seq<u8>| #[trigger] taken_before(used, r, q).contains(b) <==> taken_before(
                        used2,
                        rt,
                        q - 1,
                    ).contains(b) by {
                        if taken_before(used, r, q).contains(b) && !used.contains(b) {
                            let p = choose|p: int| 0 <= p < q && b == encode_utf8(#[trigger] r[p].1);
                            if p > 0 {
                                assert(r[p] == rt[p - 1]);
                            }
                        }
                        if taken_before(used2, rt, q - 1).contains(b) && !used2.contains(b) {
                            let p = choose|p: int| 0 <= p < q - 1 && b == encode_utf8(#[trigger] rt[p].1);
                            assert(r[p + 1] == rt[p]);
                        }
                        if b == preset_bytes(k) {
                            assert(b == encode_utf8(r[0].1));
                        }
                    }
                    assert(taken_before(used, r, q) =~= taken_before(used2, rt, q - 1));
                    assert forall|p: int| 0 <= p < q implies #[trigger] r[p].1 != r[q].1 by {
                        if p > 0 {
                            assert(r[p] == rt[p - 1]);
                        }
                    }
                }
            }
        }
    }
}

/// After the backfill every account has a usable colour: the accounts
/// given one are exactly those without a usable one, in their order, and
/// every colour given is usable.
pub proof fn lemma_backfill_completes_every_account(accounts: Seq<AccountColorRow>, i: int, used: Set<Seq<u8>>)
    requires
        0 <= i <= accounts.len(),
    ensures
        backfill_from(accounts, i, used).map_values(|a: (Seq<char>, Seq<char>)| a.0)
            == accounts.subrange(i, accounts.len() as int).filter(|a: AccountColorRow| !has_valid_color(a)).map_values(
            |a: AccountColorRow| a.id@),
        forall|p: int| 0 <= p < backfill_from(accounts, i, used).len() ==> is_valid_color_bytes(
            encode_utf8(#[trigger] backfill_from(accounts, i, used)[p].1)),
    decreases accounts.len() - i,
{
    let f = |a: AccountColorRow| !has_valid_color(a);
    let rest = accounts.subrange(i, accounts.len() as int);
    if i == accounts.len() {
        assert(rest =~= Seq::<AccountColorRow>::empty());
        assert(rest.filter(f) =~= Seq::<AccountColorRow>::empty());
    } else {
        let k = chosen_index(used, accounts[i].id@);
        let next_used = if has_valid_color(accounts[i]) { used } else { used.insert(preset_bytes(k)) };
        lemma_backfill_completes_every_account(accounts, i + 1, next_used);
        let tail = accounts.subrange(i + 1, accounts.len() as int);
        assert(rest =~= seq![accounts[i]] + tail);
        tail.lemma_filter_prepend(accounts[i], f);
        reveal_with_fuel(Seq::filter, 1);
        let r = backfill_from(accounts, i, used);
        let rt = backfill_from(accounts, i + 1, next_used);
        if !has_valid_color(accounts[i]) {
            lemma_first_unused_in_range(used, 0);
            assert(0 <= k < PRESET_COUNT);
            lemma_presets_are_valid(k);
            assert(r == seq![(accounts[i].id@, preset_spec(k))] + rt);
            assert(r.map_values(|a: (Seq<char>, Seq<char>)| a.0) =~= seq![accounts[i].id@] + rt.map_values(
                |a: (Seq<char>, Seq<char>)| a.0));
            assert(rest.filter(f) == seq![accounts[i]] + tail.filter(f));
            assert((seq![accounts[i]] + tail.filter(f)).map_values(|a: AccountColorRow| a.id@) =~= seq![accounts[i].id@]
                + tail.filter(f).map_values(|a: AccountColorRow| a.id@));
            assert forall|p: int| 0 <= p < r.len() implies is_valid_color_bytes(encode_utf8(#[trigger] r[p].1)) by {
                if p > 0 {
                    assert(r[p] == rt[p - 1]);
                }
            }
        } else {
            assert(rest.filter(f) == tail.filter(f));
        }
    }
}

/// The colour backfill as a whole: the accounts given a colour are exactly
/// those without a usable one, in their order, so every account with a
/// usable colour keeps it; every colour given is usable; and while any
/// preset is free, each colour given is one no account had (whatever its
/// letter case) and no earlier account was given.
pub proof fn lemma_backfill_account_colors_law(accounts: Seq<AccountColorRow>)
    ensures
        backfill_spec(accounts).map_values(|a: (Seq<char>, Seq<char>)| a.0) == accounts.filter(
            |a: AccountColorRow| !has_valid_color(a),
        ).map_values(|a: AccountColorRow| a.id@),
        forall|p: int| 0 <= p < backfill_spec(accounts).len() ==> is_valid_color_bytes(
            encode_utf8(#[trigger] backfill_spec(accounts)[p].1),
        ),
        forall|q: int|
            0 <= q < backfill_spec(accounts).len() && first_unused_preset(
                taken_before(initially_used(accounts), backfill_spec(accounts), q),
                0,
            ) is Some ==> {
                &&& !initially_used(accounts).contains(encode_utf8(#[trigger] backfill_spec(accounts)[q].1))
                &&& forall|p: int| 0 <= p < q ==> #[trigger] backfill_spec(accounts)[p].1 != backfill_spec(accounts)[q].1
            },
{
    lemma_backfill_completes_every_account(accounts, 0, initially_used(accounts));
    lemma_backfill_hands_out_free_colours(accounts, 0, initially_used(accounts));
    assert(accounts.subrange(0, accounts.len() as int) =~= accounts);
}

} // verus!
