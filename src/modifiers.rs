//! The fixed catalog of known modifiers: how each is judged and shown.
use vstd::prelude::*;
use vstd::string::StringSliceAdditionalSpecFns;
use crate::text::{key_is, push_char};
use crate::scalar::{ScalarDecodeFailure, ScalarKind, all_digits, is_digit, sign_stripped};

verus! {

/// Whether a larger raw value is better, worse, or neither.
#[derive(Clone, Copy, Debug, PartialEq, Eq, Structural)]
pub enum Polarity {
    ImprovingWhenPositive,
    ImprovingWhenNegative,
    Neutral,
}

/// How a raw value is written for readers.
#[derive(Clone, Copy, Debug, PartialEq, Eq, Structural)]
pub enum DisplayRule {
    /// Times one hundred, with a `%` sign.
    Percentage,
    /// As it stands, with its sign.
    SignedInteger,
    /// With exactly `precision` digits after the point.
    ScaledFloat { precision: u8 },
}

/// What the catalog knows of one modifier.
#[derive(Clone, Copy, Debug, PartialEq, Eq, Structural)]
pub struct ModifierEntry {
    pub polarity: Polarity,
    pub display_rule: DisplayRule,
}

/// The catalog: the entry of each known modifier identifier.
#[verifier::opaque]
pub open spec fn catalog(id: Seq<u8>) -> Option<ModifierEntry> {
    if id == "global_tax_modifier".spec_bytes() {
        Some(ModifierEntry { polarity: Polarity::ImprovingWhenPositive, display_rule: DisplayRule::Percentage })
    } else if id == "production_efficiency".spec_bytes() {
        Some(ModifierEntry { polarity: Polarity::ImprovingWhenPositive, display_rule: DisplayRule::Percentage })
    } else if id == "trade_efficiency".spec_bytes() {
        Some(ModifierEntry { polarity: Polarity::ImprovingWhenPositive, display_rule: DisplayRule::Percentage })
    } else if id == "global_trade_power".spec_bytes() {
        Some(ModifierEntry { polarity: Polarity::ImprovingWhenPositive, display_rule: DisplayRule::Percentage })
    } else if id == "land_morale".spec_bytes() {
        Some(ModifierEntry { polarity: Polarity::ImprovingWhenPositive, display_rule: DisplayRule::Percentage })
    } else if id == "naval_morale".spec_bytes() {
        Some(ModifierEntry { polarity: Polarity::ImprovingWhenPositive, display_rule: DisplayRule::Percentage })
    } else if id == "discipline".spec_bytes() {
        Some(ModifierEntry { polarity: Polarity::ImprovingWhenPositive, display_rule: DisplayRule::Percentage })
    } else if id == "manpower_recovery_speed".spec_bytes() {
        Some(ModifierEntry { polarity: Polarity::ImprovingWhenPositive, display_rule: DisplayRule::Percentage })
    } else if id == "global_manpower_modifier".spec_bytes() {
        Some(ModifierEntry { polarity: Polarity::ImprovingWhenPositive, display_rule: DisplayRule::Percentage })
    } else if id == "missionary_strength".spec_bytes() {
        Some(ModifierEntry { polarity: Polarity::ImprovingWhenPositive, display_rule: DisplayRule::Percentage })
    } else if id == "church_power_modifier".spec_bytes() {
        Some(ModifierEntry { polarity: Polarity::ImprovingWhenPositive, display_rule: DisplayRule::Percentage })
    } else if id == "infantry_power".spec_bytes() {
        Some(ModifierEntry { polarity: Polarity::ImprovingWhenPositive, display_rule: DisplayRule::Percentage })
    } else if id == "cavalry_power".spec_bytes() {
        Some(ModifierEntry { polarity: Polarity::ImprovingWhenPositive, display_rule: DisplayRule::Percentage })
    } else if id == "local_tax_modifier".spec_bytes() {
        Some(ModifierEntry { polarity: Polarity::ImprovingWhenPositive, display_rule: DisplayRule::Percentage })
    } else if id == "stability_cost_modifier".spec_bytes() {
        Some(ModifierEntry { polarity: Polarity::ImprovingWhenNegative, display_rule: DisplayRule::Percentage })
    } else if id == "development_cost".spec_bytes() {
        Some(ModifierEntry { polarity: Polarity::ImprovingWhenNegative, display_rule: DisplayRule::Percentage })
    } else if id == "build_cost".spec_bytes() {
        Some(ModifierEntry { polarity: Polarity::ImprovingWhenNegative, display_rule: DisplayRule::Percentage })
    } else if id == "core_creation".spec_bytes() {
        Some(ModifierEntry { polarity: Polarity::ImprovingWhenNegative, display_rule: DisplayRule::Percentage })
    } else if id == "advisor_cost".spec_bytes() {
        Some(ModifierEntry { polarity: Polarity::ImprovingWhenNegative, display_rule: DisplayRule::Percentage })
    } else if id == "idea_cost".spec_bytes() {
        Some(ModifierEntry { polarity: Polarity::ImprovingWhenNegative, display_rule: DisplayRule::Percentage })
    } else if id == "technology_cost".spec_bytes() {
        Some(ModifierEntry { polarity: Polarity::ImprovingWhenNegative, display_rule: DisplayRule::Percentage })
    } else if id == "aggressive_expansion_impact".spec_bytes() {
        Some(ModifierEntry { polarity: Polarity::ImprovingWhenNegative, display_rule: DisplayRule::Percentage })
    } else if id == "land_maintenance_modifier".spec_bytes() {
        Some(ModifierEntry { polarity: Polarity::ImprovingWhenNegative, display_rule: DisplayRule::Percentage })
    } else if id == "state_maintenance_modifier".spec_bytes() {
        Some(ModifierEntry { polarity: Polarity::ImprovingWhenNegative, display_rule: DisplayRule::Percentage })
    } else if id == "female_advisor_chance".spec_bytes() {
        Some(ModifierEntry { polarity: Polarity::Neutral, display_rule: DisplayRule::Percentage })
    } else if id == "tolerance_own".spec_bytes() {
        Some(ModifierEntry { polarity: Polarity::ImprovingWhenPositive, display_rule: DisplayRule::SignedInteger })
    } else if id == "tolerance_heretic".spec_bytes() {
        Some(ModifierEntry { polarity: Polarity::ImprovingWhenPositive, display_rule: DisplayRule::SignedInteger })
    } else if id == "tolerance_heathen".spec_bytes() {
        Some(ModifierEntry { polarity: Polarity::ImprovingWhenPositive, display_rule: DisplayRule::SignedInteger })
    } else if id == "diplomatic_reputation".spec_bytes() {
        Some(ModifierEntry { polarity: Polarity::ImprovingWhenPositive, display_rule: DisplayRule::SignedInteger })
    } else if id == "diplomats".spec_bytes() {
        Some(ModifierEntry { polarity: Polarity::ImprovingWhenPositive, display_rule: DisplayRule::SignedInteger })
    } else if id == "missionaries".spec_bytes() {
        Some(ModifierEntry { polarity: Polarity::ImprovingWhenPositive, display_rule: DisplayRule::SignedInteger })
    } else if id == "max_absolutism".spec_bytes() {
        Some(ModifierEntry { polarity: Polarity::ImprovingWhenPositive, display_rule: DisplayRule::SignedInteger })
    } else if id == "global_unrest".spec_bytes() {
        Some(ModifierEntry { polarity: Polarity::ImprovingWhenNegative, display_rule: DisplayRule::SignedInteger })
    } else if id == "local_unrest".spec_bytes() {
        Some(ModifierEntry { polarity: Polarity::ImprovingWhenNegative, display_rule: DisplayRule::SignedInteger })
    } else if id == "prestige".spec_bytes() {
        Some(ModifierEntry { polarity: Polarity::ImprovingWhenPositive, display_rule: DisplayRule::ScaledFloat { precision: 2 } })
    } else if id == "army_tradition".spec_bytes() {
        Some(ModifierEntry { polarity: Polarity::ImprovingWhenPositive, display_rule: DisplayRule::ScaledFloat { precision: 2 } })
    } else if id == "navy_tradition".spec_bytes() {
        Some(ModifierEntry { polarity: Polarity::ImprovingWhenPositive, display_rule: DisplayRule::ScaledFloat { precision: 2 } })
    } else if id == "papal_influence".spec_bytes() {
        Some(ModifierEntry { polarity: Polarity::ImprovingWhenPositive, display_rule: DisplayRule::ScaledFloat { precision: 2 } })
    } else if id == "monthly_fervor_increase".spec_bytes() {
        Some(ModifierEntry { polarity: Polarity::ImprovingWhenPositive, display_rule: DisplayRule::ScaledFloat { precision: 2 } })
    } else if id == "yearly_absolutism".spec_bytes() {
        Some(ModifierEntry { polarity: Polarity::ImprovingWhenPositive, display_rule: DisplayRule::ScaledFloat { precision: 2 } })
    } else if id == "inflation_reduction".spec_bytes() {
        Some(ModifierEntry { polarity: Polarity::ImprovingWhenPositive, display_rule: DisplayRule::ScaledFloat { precision: 2 } })
    } else if id == "yearly_corruption".spec_bytes() {
        Some(ModifierEntry { polarity: Polarity::ImprovingWhenNegative, display_rule: DisplayRule::ScaledFloat { precision: 2 } })
    } else if id == "war_exhaustion".spec_bytes() {
        Some(ModifierEntry { polarity: Polarity::ImprovingWhenNegative, display_rule: DisplayRule::ScaledFloat { precision: 2 } })
    } else {
        None
    }
}

/// Looks a modifier identifier up in the catalog.
#[verifier::rlimit(50)]
pub fn lookup(id: &[u8]) -> (r: Option<ModifierEntry>)
    ensures
        r == catalog(id@),
{
    reveal(catalog);
    if key_is(id, "global_tax_modifier") {
        Some(ModifierEntry { polarity: Polarity::ImprovingWhenPositive, display_rule: DisplayRule::Percentage })
    } else if key_is(id, "production_efficiency") {
        Some(ModifierEntry { polarity: Polarity::ImprovingWhenPositive, display_rule: DisplayRule::Percentage })
    } else if key_is(id, "trade_efficiency") {
        Some(ModifierEntry { polarity: Polarity::ImprovingWhenPositive, display_rule: DisplayRule::Percentage })
    } else if key_is(id, "global_trade_power") {
        Some(ModifierEntry { polarity: Polarity::ImprovingWhenPositive, display_rule: DisplayRule::Percentage })
    } else if key_is(id, "land_morale") {
        Some(ModifierEntry { polarity: Polarity::ImprovingWhenPositive, display_rule: DisplayRule::Percentage })
    } else if key_is(id, "naval_morale") {
        Some(ModifierEntry { polarity: Polarity::ImprovingWhenPositive, display_rule: DisplayRule::Percentage })
    } else if key_is(id, "discipline") {
        Some(ModifierEntry { polarity: Polarity::ImprovingWhenPositive, display_rule: DisplayRule::Percentage })
    } else if key_is(id, "manpower_recovery_speed") {
        Some(ModifierEntry { polarity: Polarity::ImprovingWhenPositive, display_rule: DisplayRule::Percentage })
    } else if key_is(id, "global_manpower_modifier") {
        Some(ModifierEntry { polarity: Polarity::ImprovingWhenPositive, display_rule: DisplayRule::Percentage })
    } else if key_is(id, "missionary_strength") {
        Some(ModifierEntry { polarity: Polarity::ImprovingWhenPositive, display_rule: DisplayRule::Percentage })
    } else if key_is(id, "church_power_modifier") {
        Some(ModifierEntry { polarity: Polarity::ImprovingWhenPositive, display_rule: DisplayRule::Percentage })
    } else if key_is(id, "infantry_power") {
        Some(ModifierEntry { polarity: Polarity::ImprovingWhenPositive, display_rule: DisplayRule::Percentage })
    } else if key_is(id, "cavalry_power") {
        Some(ModifierEntry { polarity: Polarity::ImprovingWhenPositive, display_rule: DisplayRule::Percentage })
    } else if key_is(id, "local_tax_modifier") {
        Some(ModifierEntry { polarity: Polarity::ImprovingWhenPositive, display_rule: DisplayRule::Percentage })
    } else if key_is(id, "stability_cost_modifier") {
        Some(ModifierEntry { polarity: Polarity::ImprovingWhenNegative, display_rule: DisplayRule::Percentage })
    } else if key_is(id, "development_cost") {
        Some(ModifierEntry { polarity: Polarity::ImprovingWhenNegative, display_rule: DisplayRule::Percentage })
    } else if key_is(id, "build_cost") {
        Some(ModifierEntry { polarity: Polarity::ImprovingWhenNegative, display_rule: DisplayRule::Percentage })
    } else if key_is(id, "core_creation") {
        Some(ModifierEntry { polarity: Polarity::ImprovingWhenNegative, display_rule: DisplayRule::Percentage })
    } else if key_is(id, "advisor_cost") {
        Some(ModifierEntry { polarity: Polarity::ImprovingWhenNegative, display_rule: DisplayRule::Percentage })
    } else if key_is(id, "idea_cost") {
        Some(ModifierEntry { polarity: Polarity::ImprovingWhenNegative, display_rule: DisplayRule::Percentage })
    } else if key_is(id, "technology_cost") {
        Some(ModifierEntry { polarity: Polarity::ImprovingWhenNegative, display_rule: DisplayRule::Percentage })
    } else if key_is(id, "aggressive_expansion_impact") {
        Some(ModifierEntry { polarity: Polarity::ImprovingWhenNegative, display_rule: DisplayRule::Percentage })
    } else if key_is(id, "land_maintenance_modifier") {
        Some(ModifierEntry { polarity: Polarity::ImprovingWhenNegative, display_rule: DisplayRule::Percentage })
    } else if key_is(id, "state_maintenance_modifier") {
        Some(ModifierEntry { polarity: Polarity::ImprovingWhenNegative, display_rule: DisplayRule::Percentage })
    } else if key_is(id, "female_advisor_chance") {
        Some(ModifierEntry { polarity: Polarity::Neutral, display_rule: DisplayRule::Percentage })
    } else if key_is(id, "tolerance_own") {
        Some(ModifierEntry { polarity: Polarity::ImprovingWhenPositive, display_rule: DisplayRule::SignedInteger })
    } else if key_is(id, "tolerance_heretic") {
        Some(ModifierEntry { polarity: Polarity::ImprovingWhenPositive, display_rule: DisplayRule::SignedInteger })
    } else if key_is(id, "tolerance_heathen") {
        Some(ModifierEntry { polarity: Polarity::ImprovingWhenPositive, display_rule: DisplayRule::SignedInteger })
    } else if key_is(id, "diplomatic_reputation") {
        Some(ModifierEntry { polarity: Polarity::ImprovingWhenPositive, display_rule: DisplayRule::SignedInteger })
    } else if key_is(id, "diplomats") {
        Some(ModifierEntry { polarity: Polarity::ImprovingWhenPositive, display_rule: DisplayRule::SignedInteger })
    } else if key_is(id, "missionaries") {
        Some(ModifierEntry { polarity: Polarity::ImprovingWhenPositive, display_rule: DisplayRule::SignedInteger })
    } else if key_is(id, "max_absolutism") {
        Some(ModifierEntry { polarity: Polarity::ImprovingWhenPositive, display_rule: DisplayRule::SignedInteger })
    } else if key_is(id, "global_unrest") {
        Some(ModifierEntry { polarity: Polarity::ImprovingWhenNegative, display_rule: DisplayRule::SignedInteger })
    } else if key_is(id, "local_unrest") {
        Some(ModifierEntry { polarity: Polarity::ImprovingWhenNegative, display_rule: DisplayRule::SignedInteger })
    } else if key_is(id, "prestige") {
        Some(ModifierEntry { polarity: Polarity::ImprovingWhenPositive, display_rule: DisplayRule::ScaledFloat { precision: 2 } })
    } else if key_is(id, "army_tradition") {
        Some(ModifierEntry { polarity: Polarity::ImprovingWhenPositive, display_rule: DisplayRule::ScaledFloat { precision: 2 } })
    } else if key_is(id, "navy_tradition") {
        Some(ModifierEntry { polarity: Polarity::ImprovingWhenPositive, display_rule: DisplayRule::ScaledFloat { precision: 2 } })
    } else if key_is(id, "papal_influence") {
        Some(ModifierEntry { polarity: Polarity::ImprovingWhenPositive, display_rule: DisplayRule::ScaledFloat { precision: 2 } })
    } else if key_is(id, "monthly_fervor_increase") {
        Some(ModifierEntry { polarity: Polarity::ImprovingWhenPositive, display_rule: DisplayRule::ScaledFloat { precision: 2 } })
    } else if key_is(id, "yearly_absolutism") {
        Some(ModifierEntry { polarity: Polarity::ImprovingWhenPositive, display_rule: DisplayRule::ScaledFloat { precision: 2 } })
    } else if key_is(id, "inflation_reduction") {
        Some(ModifierEntry { polarity: Polarity::ImprovingWhenPositive, display_rule: DisplayRule::ScaledFloat { precision: 2 } })
    } else if key_is(id, "yearly_corruption") {
        Some(ModifierEntry { polarity: Polarity::ImprovingWhenNegative, display_rule: DisplayRule::ScaledFloat { precision: 2 } })
    } else if key_is(id, "war_exhaustion") {
        Some(ModifierEntry { polarity: Polarity::ImprovingWhenNegative, display_rule: DisplayRule::ScaledFloat { precision: 2 } })
    } else {
        None
    }
}

/// Whether a modifier's value helps or hurts whoever has it.
#[derive(Clone, Copy, Debug, PartialEq, Eq, Structural)]
pub enum Colour {
    Improvement,
    Detriment,
}

/// Index of the first `c` at or after `i`, or the length.
pub open spec fn find_byte(s: Seq<u8>, c: u8, i: int) -> int
    decreases s.len() - i,
{
    if i >= s.len() {
        s.len() as int
    } else if s[i] == c {
        i
    } else {
        find_byte(s, c, i + 1)
    }
}

/// A decimal numeral: its sign, its whole digits and its fraction digits.
pub open spec fn decimal_parts(b: Seq<u8>) -> Option<(bool, Seq<u8>, Seq<u8>)> {
    let body = sign_stripped(b, true);
    let neg = b.len() > 0 && b[0] == 45;
    let d = find_byte(body, 46, 0);
    let whole = body.take(d);
    let frac = if d < body.len() {
        body.subrange(d + 1, body.len() as int)
    } else {
        seq![]
    };
    if all_digits(whole) && all_digits(frac) && whole.len() + frac.len() > 0 {
        Some((neg, whole, frac))
    } else {
        None
    }
}

pub open spec fn all_zero(s: Seq<u8>) -> bool {
    forall|i: int| 0 <= i < s.len() ==> #[trigger] s[i] == 48
}

pub open spec fn zeros(n: nat) -> Seq<u8> {
    Seq::new(n, |i: int| 48u8)
}

/// Whole digits without leading zeros, and `0` for none.
pub open spec fn strip_leading(s: Seq<u8>) -> Seq<u8>
    decreases s.len(),
{
    if s.len() == 0 {
        seq![48u8]
    } else if s.len() > 1 && s[0] == 48 {
        strip_leading(s.drop_first())
    } else {
        s
    }
}

/// Fraction digits without trailing zeros.
pub open spec fn strip_trailing(s: Seq<u8>) -> Seq<u8>
    decreases s.len(),
{
    if s.len() > 0 && s.last() == 48 {
        strip_trailing(s.drop_last())
    } else {
        s
    }
}

/// Exactly `p` fraction digits: cut, or padded with zeros.
pub open spec fn fixed(frac: Seq<u8>, p: nat) -> Seq<u8> {
    (frac + zeros(p)).take(p as int)
}

/// The digits with the point moved `k` places right.
pub open spec fn shifted(whole: Seq<u8>, frac: Seq<u8>, k: nat) -> (Seq<u8>, Seq<u8>) {
    let f = frac + zeros(k);
    (whole + f.take(k as int), strip_trailing(f.subrange(k as int, f.len() as int)))
}

/// The text of a decimal under a display rule.
pub open spec fn rendered(neg: bool, whole: Seq<u8>, frac: Seq<u8>, rule: DisplayRule) -> Seq<u8> {
    let (w2, f2) = match rule {
        DisplayRule::Percentage => shifted(whole, frac, 2),
        DisplayRule::SignedInteger => (whole, strip_trailing(frac)),
        DisplayRule::ScaledFloat { precision } => (whole, fixed(frac, precision as nat)),
    };
    let sign = if neg && !(all_zero(whole) && all_zero(frac)) {
        45u8
    } else {
        43u8
    };
    let point = if f2.len() > 0 {
        seq![46u8] + f2
    } else {
        seq![]
    };
    let unit = if rule == DisplayRule::Percentage {
        seq![37u8]
    } else {
        seq![]
    };
    seq![sign] + strip_leading(w2) + point + unit
}

pub open spec fn ascii_chars(b: Seq<u8>) -> Seq<char> {
    b.map_values(|c: u8| c as char)
}

/// The text that readers see for a raw value under an entry.
pub open spec fn human_text(entry: ModifierEntry, raw: Seq<u8>) -> Option<Seq<char>> {
    match decimal_parts(raw) {
        Some((neg, whole, frac)) => Some(ascii_chars(rendered(neg, whole, frac, entry.display_rule))),
        None => None,
    }
}

/// The colour of a raw value: a detriment when it is above zero for a modifier that
/// improves when negative, or below zero for one that improves when positive.
pub open spec fn colour_of(entry: ModifierEntry, raw: Seq<u8>) -> Option<Colour> {
    match decimal_parts(raw) {
        Some((neg, whole, frac)) => {
            let zero = all_zero(whole) && all_zero(frac);
            if !zero && !neg && entry.polarity == Polarity::ImprovingWhenNegative {
                Some(Colour::Detriment)
            } else if !zero && neg && entry.polarity == Polarity::ImprovingWhenPositive {
                Some(Colour::Detriment)
            } else {
                Some(Colour::Improvement)
            }
        },
        None => None,
    }
}

fn find_dot(s: &[u8], i: usize) -> (e: usize)
    requires
        i <= s@.len(),
    ensures
        e == find_byte(s@, 46, i as int),
        i <= e <= s@.len(),
{
    let mut j = i;
    while j < s.len() && s[j] != 46
        invariant
            i <= j <= s@.len(),
            find_byte(s@, 46, i as int) == find_byte(s@, 46, j as int),
        decreases s@.len() - j,
    {
        j = j + 1;
    }
    j
}

fn digits_only(s: &[u8], from: usize, to: usize) -> (r: bool)
    requires
        from <= to <= s@.len(),
    ensures
        r == all_digits(s@.subrange(from as int, to as int)),
{
    let mut j = from;
    while j < to
        invariant
            from <= j <= to <= s@.len(),
            forall|i: int| from <= i < j ==> is_digit(#[trigger] s@[i]),
        decreases to - j,
    {
        if s[j] < 48 || s[j] > 57 {
            assert(!is_digit(s@.subrange(from as int, to as int)[j - from]));
            return false;
        }
        j = j + 1;
    }
    assert forall|i: int| 0 <= i < to - from implies is_digit(#[trigger] s@.subrange(from as int, to as int)[i]) by {
        assert(s@.subrange(from as int, to as int)[i] == s@[from + i]);
    }
    true
}

fn range_of(b: &[u8], from: usize, to: usize) -> (r: Vec<u8>)
    requires
        from <= to <= b@.len(),
    ensures
        r@ == b@.subrange(from as int, to as int),
{
    let mut r: Vec<u8> = Vec::new();
    let mut j = from;
    while j < to
        invariant
            from <= j <= to <= b@.len(),
            r@ == b@.subrange(from as int, j as int),
        decreases to - j,
    {
        r.push(b[j]);
        assert(r@ =~= b@.subrange(from as int, j + 1));
        j = j + 1;
    }
    r
}

/// Splits a decimal numeral into sign, whole digits and fraction digits.
pub fn parse_decimal(b: &[u8]) -> (r: Option<(bool, Vec<u8>, Vec<u8>)>)
    ensures
        match r {
            Some((neg, w, f)) => decimal_parts(b@) == Some((neg, w@, f@)),
            None => decimal_parts(b@) is None,
        },
{
    let neg = b.len() > 0 && b[0] == 45;
    let start: usize = if b.len() > 0 && (b[0] == 43 || b[0] == 45) {
        1
    } else {
        0
    };
    let ghost body = sign_stripped(b@, true);
    assert(body =~= b@.subrange(start as int, b@.len() as int));
    let d = find_dot(b, start);
    proof {
        assert forall|j: int| start <= j <= b@.len() implies find_byte(b@, 46, j) - start == find_byte(body, 46, j - start) by {
            lemma_find_shift(b@, start as int, j);
        }
    }
    let whole_ok = digits_only(b, start, d);
    let frac_from: usize = if d < b.len() {
        d + 1
    } else {
        b.len()
    };
    let frac_ok = digits_only(b, frac_from, b.len());
    assert(body.take(d - start) =~= b@.subrange(start as int, d as int));
    if d < b.len() {
        assert(body.subrange(d - start + 1, body.len() as int) =~= b@.subrange(frac_from as int, b@.len() as int));
    } else {
        assert(b@.subrange(frac_from as int, b@.len() as int) =~= seq![]);
    }
    if whole_ok && frac_ok && (d - start) + (b.len() - frac_from) > 0 {
        Some((neg, range_of(b, start, d), range_of(b, frac_from, b.len())))
    } else {
        None
    }
}

proof fn lemma_find_shift(b: Seq<u8>, start: int, j: int)
    requires
        0 <= start <= j <= b.len(),
    ensures
        find_byte(b, 46, j) - start == find_byte(b.subrange(start, b.len() as int), 46, j - start),
    decreases b.len() - j,
{
    if j < b.len() {
        lemma_find_shift(b, start, j + 1);
    }
}

fn is_all_zero(s: &Vec<u8>) -> (r: bool)
    ensures
        r == all_zero(s@),
{
    let mut j: usize = 0;
    while j < s.len()
        invariant
            j <= s@.len(),
            forall|i: int| 0 <= i < j ==> #[trigger] s@[i] == 48,
        decreases s@.len() - j,
    {
        if s[j] != 48 {
            return false;
        }
        j = j + 1;
    }
    true
}

fn push_zeros(v: &mut Vec<u8>, n: usize)
    ensures
        final(v)@ == old(v)@ + zeros(n as nat),
{
    let ghost start = v@;
    let mut j: usize = 0;
    while j < n
        invariant
            j <= n,
            v@ == start + zeros(j as nat),
        decreases n - j,
    {
        v.push(48);
        assert(v@ =~= start + zeros((j + 1) as nat));
        j = j + 1;
    }
}

fn without_leading_zeros(s: &Vec<u8>) -> (r: Vec<u8>)
    ensures
        r@ == strip_leading(s@),
{
    if s.len() == 0 {
        let mut r: Vec<u8> = Vec::new();
        r.push(48);
        assert(r@ =~= seq![48u8]);
        return r;
    }
    let mut j: usize = 0;
    assert(s@.subrange(0, s@.len() as int) =~= s@);
    while j < s.len() - 1 && s[j] == 48
        invariant
            j < s@.len(),
            strip_leading(s@) == strip_leading(s@.subrange(j as int, s@.len() as int)),
        decreases s@.len() - j,
    {
        assert(s@.subrange(j as int, s@.len() as int).drop_first() =~= s@.subrange(j + 1, s@.len() as int));
        j = j + 1;
    }
    range_of(s.as_slice(), j, s.len())
}

fn without_trailing_zeros(s: &Vec<u8>) -> (r: Vec<u8>)
    ensures
        r@ == strip_trailing(s@),
{
    let mut j: usize = s.len();
    assert(s@.subrange(0, j as int) =~= s@);
    while j > 0 && s[j - 1] == 48
        invariant
            j <= s@.len(),
            strip_trailing(s@) == strip_trailing(s@.subrange(0, j as int)),
        decreases j,
    {
        assert(s@.subrange(0, j as int).drop_last() =~= s@.subrange(0, j - 1));
        j = j - 1;
    }
    range_of(s.as_slice(), 0, j)
}

fn append_all(out: &mut Vec<u8>, b: &Vec<u8>)
    ensures
        final(out)@ == old(out)@ + b@,
{
    let mut c = range_of(b.as_slice(), 0, b.len());
    assert(c@ =~= b@);
    out.append(&mut c);
}

fn ascii_string(b: &Vec<u8>) -> (r: String)
    ensures
        r@ == ascii_chars(b@),
{
    let mut r = String::new();
    let mut j: usize = 0;
    while j < b.len()
        invariant
            j <= b@.len(),
            r@ == ascii_chars(b@.subrange(0, j as int)),
        decreases b@.len() - j,
    {
        push_char(&mut r, b[j] as char);
        assert(ascii_chars(b@.subrange(0, j + 1)) =~= ascii_chars(b@.subrange(0, j as int)).push(b@[j as int] as char));
        j = j + 1;
    }
    assert(b@.subrange(0, b@.len() as int) =~= b@);
    r
}

fn render(neg: bool, whole: &Vec<u8>, frac: &Vec<u8>, rule: DisplayRule) -> (r: Vec<u8>)
    ensures
        r@ == rendered(neg, whole@, frac@, rule),
{
    let (w2, f2): (Vec<u8>, Vec<u8>) = match rule {
        DisplayRule::Percentage => {
            let mut f = range_of(frac.as_slice(), 0, frac.len());
            push_zeros(&mut f, 2);
            let mut w = range_of(whole.as_slice(), 0, whole.len());
            let head = range_of(f.as_slice(), 0, 2);
            append_all(&mut w, &head);
            let tail = range_of(f.as_slice(), 2, f.len());
            assert(frac@.subrange(0, frac@.len() as int) =~= frac@);
            assert(whole@.subrange(0, whole@.len() as int) =~= whole@);
            assert(f@.take(2) =~= head@);
            (w, without_trailing_zeros(&tail))
        },
        DisplayRule::SignedInteger => {
            let w = range_of(whole.as_slice(), 0, whole.len());
            assert(whole@.subrange(0, whole@.len() as int) =~= whole@);
            (w, without_trailing_zeros(frac))
        },
        DisplayRule::ScaledFloat { precision } => {
            let mut f = range_of(frac.as_slice(), 0, frac.len());
            push_zeros(&mut f, precision as usize);
            let w = range_of(whole.as_slice(), 0, whole.len());
            assert(frac@.subrange(0, frac@.len() as int) =~= frac@);
            assert(whole@.subrange(0, whole@.len() as int) =~= whole@);
            (w, range_of(f.as_slice(), 0, precision as usize))
        },
    };
    let zero = is_all_zero(whole) && is_all_zero(frac);
    let mut out: Vec<u8> = Vec::new();
    out.push(if neg && !zero { 45 } else { 43 });
    let lead = without_leading_zeros(&w2);
    append_all(&mut out, &lead);
    if f2.len() > 0 {
        out.push(46);
        append_all(&mut out, &f2);
    }
    if rule == DisplayRule::Percentage {
        out.push(37);
    }
    proof {
        let sign = if neg && !zero { 45u8 } else { 43u8 };
        let point = if f2@.len() > 0 { seq![46u8] + f2@ } else { seq![] };
        let unit = if rule == DisplayRule::Percentage { seq![37u8] } else { seq![] };
        assert(out@ =~= seq![sign] + strip_leading(w2@) + point + unit);
    }
    out
}

/// The text that readers see for a raw value, under the entry's display rule.
pub fn to_human_readable(entry: ModifierEntry, raw: &[u8]) -> (r: Result<String, ScalarDecodeFailure>)
    ensures
        match r {
            Ok(s) => human_text(entry, raw@) == Some(s@),
            Err(e) => human_text(entry, raw@) is None && e == ScalarDecodeFailure::Expected(ScalarKind::Decimal),
        },
{
    match parse_decimal(raw) {
        Some((neg, whole, frac)) => {
            let b = render(neg, &whole, &frac, entry.display_rule);
            Ok(ascii_string(&b))
        },
        None => Err(ScalarDecodeFailure::Expected(ScalarKind::Decimal)),
    }
}

/// Whether a raw value helps or hurts, by its sign and the entry's polarity; zero helps.
pub fn polarity_to_colour(entry: ModifierEntry, raw: &[u8]) -> (r: Result<Colour, ScalarDecodeFailure>)
    ensures
        match r {
            Ok(c) => colour_of(entry, raw@) == Some(c),
            Err(e) => colour_of(entry, raw@) is None && e == ScalarDecodeFailure::Expected(ScalarKind::Decimal),
        },
{
    match parse_decimal(raw) {
        Some((neg, whole, frac)) => {
            let zero = is_all_zero(&whole) && is_all_zero(&frac);
            if !zero && !neg && entry.polarity == Polarity::ImprovingWhenNegative {
                Ok(Colour::Detriment)
            } else if !zero && neg && entry.polarity == Polarity::ImprovingWhenPositive {
                Ok(Colour::Detriment)
            } else {
                Ok(Colour::Improvement)
            }
        },
        None => Err(ScalarDecodeFailure::Expected(ScalarKind::Decimal)),
    }
}

} // verus!
