//! Assembly of the boot-protocol keyboard report.
use crate::keycode::{is_modifier, is_modifier_spec, modifier_bit, modifier_bit_spec, FIRST_MODIFIER};
use vstd::prelude::*;

verus! {

/// Number of non-modifier keycode slots in a report.
pub const REPORT_SLOTS: usize = 6;

/// Length in bytes of a report: modifier byte, reserved byte, keycode slots.
pub const REPORT_LEN: usize = 8;

/// Union of the modifier bits of the codes in `s`.
pub open spec fn modifier_byte(s: Seq<u8>) -> u8
    decreases s.len(),
{
    if s.len() == 0 {
        0
    } else {
        modifier_byte(s.drop_last()) | modifier_bit_spec(s.last())
    }
}

/// The codes of `s` that are not modifiers, order kept.
pub open spec fn non_modifiers(s: Seq<u8>) -> Seq<u8>
    decreases s.len(),
{
    if s.len() == 0 {
        s
    } else if is_modifier_spec(s.last()) {
        non_modifiers(s.drop_last())
    } else {
        non_modifiers(s.drop_last()).push(s.last())
    }
}

/// The report for the held codes `s`: the modifier byte, a zero byte, then the
/// first `REPORT_SLOTS` non-modifier codes in order, padded with zeros.
pub open spec fn report_of(s: Seq<u8>) -> Seq<u8> {
    Seq::new(
        REPORT_LEN as nat,
        |i: int|
            if i == 0 {
                modifier_byte(s)
            } else if i == 1 {
                0u8
            } else if i - 2 < non_modifiers(s).len() {
                non_modifiers(s)[i - 2]
            } else {
                0u8
            },
    )
}

/// Builds the report for the held codes `keys`. Codes past the slots are
/// left out.
pub fn build(keys: &Vec<u8>) -> (r: [u8; REPORT_LEN])
    ensures
        r@ == report_of(keys@),
{
    let mut r: [u8; REPORT_LEN] = [0u8; REPORT_LEN];
    let mut mods: u8 = 0;
    let mut slot: usize = 0;
    let mut i: usize = 0;
    while i < keys.len()
        invariant
            i <= keys@.len(),
            r@.len() == REPORT_LEN,
            mods == modifier_byte(keys@.take(i as int)),
            slot <= REPORT_SLOTS,
            slot == REPORT_SLOTS || slot == non_modifiers(keys@.take(i as int)).len(),
            slot <= non_modifiers(keys@.take(i as int)).len(),
            forall|j: int| 0 <= j < slot ==> r@[j + 2] == non_modifiers(keys@.take(i as int))[j],
            forall|j: int| slot + 2 <= j < REPORT_LEN ==> r@[j] == 0,
            r@[0] == 0,
            r@[1] == 0,
        decreases keys@.len() - i,
    {
        let c = keys[i];
        let ghost before = keys@.take(i as int);
        assert(keys@.take(i + 1).drop_last() =~= before);
        assert(keys@.take(i + 1).last() == c);
        if is_modifier(c) {
            mods = mods | modifier_bit(c);
        } else {
            mods = mods | modifier_bit(c);
            if slot < REPORT_SLOTS {
                r[slot + 2] = c;
                slot = slot + 1;
            }
        }
        i = i + 1;
    }
    assert(keys@.take(i as int) =~= keys@);
    r[0] = mods;
    assert(r@ =~= report_of(keys@));
    r
}

/// Bit `b` of the modifier byte of `s` is set exactly when `s` holds the
/// modifier `0xE0 + b`.
pub proof fn lemma_modifier_byte_bits(s: Seq<u8>, b: u8)
    requires
        b < 8,
    ensures
        (modifier_byte(s) >> b) & 1 == 1 <==> s.contains((FIRST_MODIFIER + b) as u8),
    decreases s.len(),
{
    if s.len() == 0 {
        assert((0u8 >> b) & 1 == 0) by (bit_vector);
    } else {
        let front = s.drop_last();
        lemma_modifier_byte_bits(front, b);
        let x = modifier_byte(front);
        let c = s.last();
        let m = modifier_bit_spec(c);
        if is_modifier_spec(c) {
            let d = (c - FIRST_MODIFIER) as u8;
            assert(d < 8);
            assert((d == b) == (c == (FIRST_MODIFIER + b) as u8));
            assert(m == (1u8 << d) as u8);
            assert(((x | ((1u8 << d) as u8)) >> b) & 1 == 1 <==> ((x >> b) & 1 == 1 || d == b))
                by (bit_vector)
                requires
                    d < 8,
                    b < 8,
            ;
        } else {
            assert(m == 0);
            assert((x | 0u8) == x) by (bit_vector);
            assert(c != (FIRST_MODIFIER + b) as u8);
        }
        if s.contains((FIRST_MODIFIER + b) as u8) {
            let k = choose|k: int| 0 <= k < s.len() && s[k] == (FIRST_MODIFIER + b) as u8;
            if k < s.len() - 1 {
                assert(front[k] == s[k]);
            }
        }
        if front.contains((FIRST_MODIFIER + b) as u8) {
            let k = choose|k: int| 0 <= k < front.len() && front[k] == (FIRST_MODIFIER + b) as u8;
            assert(s[k] == front[k]);
        }
    }
}

/// The non-modifier codes of `s` are the codes of `s` that are not modifiers.
pub proof fn lemma_non_modifiers(s: Seq<u8>)
    ensures
        forall|k: int|
            0 <= k < non_modifiers(s).len() ==> !is_modifier_spec(#[trigger] non_modifiers(s)[k])
                && s.contains(non_modifiers(s)[k]),
        non_modifiers(s).len() <= s.len(),
    decreases s.len(),
{
    if s.len() > 0 {
        let front = s.drop_last();
        lemma_non_modifiers(front);
        let n = non_modifiers(s);
        assert forall|k: int| 0 <= k < n.len() implies !is_modifier_spec(#[trigger] n[k])
            && s.contains(n[k]) by {
            if k < non_modifiers(front).len() {
                assert(n[k] == non_modifiers(front)[k]);
                let j = choose|j: int| 0 <= j < front.len() && front[j] == n[k];
                assert(s[j] == front[j]);
            } else {
                assert(n[k] == s[s.len() - 1]);
            }
        }
    }
}

/// The report is a function of the held codes alone, so building it twice
/// from the same codes gives the same bytes; and the codes can be read back
/// from it: bit `b` of byte 0 is set exactly when modifier `0xE0 + b` is held,
/// byte 1 is zero, and the slots hold the first non-modifier codes in order,
/// then zeros, each a held code that is not a modifier.
pub proof fn lemma_report_round_trip(a: Seq<u8>, b: Seq<u8>)
    requires
        a == b,
    ensures
        report_of(a) == report_of(b),
        report_of(a).len() == REPORT_LEN,
        forall|m: u8| m < 8 ==> ((#[trigger] (report_of(a)[0] >> m)) & 1 == 1 <==> a.contains(
            (FIRST_MODIFIER + m) as u8,
        )),
        report_of(a)[1] == 0,
        forall|j: int|
            0 <= j < REPORT_SLOTS ==> #[trigger] report_of(a)[j + 2] == if j < non_modifiers(
                a,
            ).len() {
                non_modifiers(a)[j]
            } else {
                0u8
            },
        forall|j: int|
            0 <= j < REPORT_SLOTS && j < non_modifiers(a).len() ==> !is_modifier_spec(
                #[trigger] report_of(a)[j + 2],
            ) && a.contains(report_of(a)[j + 2]),
{
    lemma_non_modifiers(a);
    assert forall|m: u8| m < 8 implies ((#[trigger] (report_of(a)[0] >> m)) & 1 == 1
        <==> a.contains((FIRST_MODIFIER + m) as u8)) by {
        lemma_modifier_byte_bits(a, m);
    }
}

} // verus!
