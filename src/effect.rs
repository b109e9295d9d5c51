//! Flat effect records: modifiers added and removed, flags, scheduled events.
use vstd::prelude::*;
use vstd::string::StringSliceAdditionalSpecFns;
use crate::error::{ErrV, ProjectionError, err_view, undecodable, unmodeled, within, within_key};
use crate::scalar::{
    ScalarDecodeFailure, ScalarKind, signed_text, to_i64, to_text, to_u64, unsigned_text,
    windows1252_text,
};
use crate::text::key_is;
use crate::tree::{Node, NodeV, Value, ValueV, node_text, node_view, nodes_view};
use crate::trigger::{append_misc, bytes_view, misc_text, text_view};

verus! {

/// A country modifier that an effect adds or removes.
#[derive(Debug)]
pub struct CountryModifier {
    pub name: String,
    pub duration: Option<i64>,
    pub desc: Option<String>,
    pub hidden: bool,
}

/// A country event that an effect schedules.
#[derive(Debug)]
pub struct CountryEvent {
    pub id: String,
    pub days: Option<u64>,
    pub random: Option<u64>,
    pub tooltip: Option<String>,
}

/// What an effect does, each kind of operation in the order the statements give it.
#[derive(Debug)]
pub struct Effect {
    pub misc: Option<Vec<u8>>,
    pub custom_tooltip: Option<String>,
    pub country_events: Vec<CountryEvent>,
    pub country_modifiers: Vec<CountryModifier>,
    pub remove_country_modifiers: Vec<CountryModifier>,
    pub set_country_flag: Vec<String>,
    pub clr_country_flag: Vec<String>,
    /// Keys of nested scopes, kept for diagnostics.
    pub scopes: Vec<Vec<u8>>,
}

pub struct CountryModifierV {
    pub name: Seq<char>,
    pub duration: Option<i64>,
    pub desc: Option<Seq<char>>,
    pub hidden: bool,
}

pub struct CountryEventV {
    pub id: Seq<char>,
    pub days: Option<u64>,
    pub random: Option<u64>,
    pub tooltip: Option<Seq<char>>,
}

pub struct EffectV {
    pub misc: Option<Seq<u8>>,
    pub custom_tooltip: Option<Seq<char>>,
    pub country_events: Seq<CountryEventV>,
    pub country_modifiers: Seq<CountryModifierV>,
    pub remove_country_modifiers: Seq<CountryModifierV>,
    pub set_country_flag: Seq<Seq<char>>,
    pub clr_country_flag: Seq<Seq<char>>,
    pub scopes: Seq<Seq<u8>>,
}

pub open spec fn modifier_view(m: CountryModifier) -> CountryModifierV {
    CountryModifierV { name: m.name@, duration: m.duration, desc: text_view(m.desc), hidden: m.hidden }
}

pub open spec fn event_view(e: CountryEvent) -> CountryEventV {
    CountryEventV { id: e.id@, days: e.days, random: e.random, tooltip: text_view(e.tooltip) }
}

pub open spec fn effect_view(e: Effect) -> EffectV {
    EffectV {
        misc: bytes_view(e.misc),
        custom_tooltip: text_view(e.custom_tooltip),
        country_events: e.country_events@.map_values(|x: CountryEvent| event_view(x)),
        country_modifiers: e.country_modifiers@.map_values(|x: CountryModifier| modifier_view(x)),
        remove_country_modifiers: e.remove_country_modifiers@.map_values(
            |x: CountryModifier| modifier_view(x),
        ),
        set_country_flag: e.set_country_flag@.map_values(|x: String| x@),
        clr_country_flag: e.clr_country_flag@.map_values(|x: String| x@),
        scopes: e.scopes@.map_values(|x: Vec<u8>| x@),
    }
}

pub open spec fn empty_modifier() -> CountryModifierV {
    CountryModifierV { name: Seq::empty(), duration: None, desc: None, hidden: false }
}

pub open spec fn empty_event() -> CountryEventV {
    CountryEventV { id: Seq::empty(), days: None, random: None, tooltip: None }
}

pub open spec fn empty_effect() -> EffectV {
    EffectV {
        misc: None,
        custom_tooltip: None,
        country_events: seq![],
        country_modifiers: seq![],
        remove_country_modifiers: seq![],
        set_country_flag: seq![],
        clr_country_flag: seq![],
        scopes: seq![],
    }
}

/// An unsigned field: the number, or the failure under its key.
pub open spec fn unsigned_field(f: NodeV) -> Result<u64, ErrV> {
    match f.value {
        ValueV::Scalar(w) => match unsigned_text(w) {
            Some(n) => Ok(n),
            None => Err(ErrV::ScalarDecode(seq![f.key], ScalarDecodeFailure::Expected(ScalarKind::Unsigned))),
        },
        _ => Err(ErrV::ScalarDecode(seq![f.key], ScalarDecodeFailure::Expected(ScalarKind::Unsigned))),
    }
}

/// A signed field: the number, or the failure under its key.
pub open spec fn signed_field(f: NodeV) -> Result<i64, ErrV> {
    match f.value {
        ValueV::Scalar(w) => match signed_text(w) {
            Some(n) => Ok(n),
            None => Err(ErrV::ScalarDecode(seq![f.key], ScalarDecodeFailure::Expected(ScalarKind::Signed))),
        },
        _ => Err(ErrV::ScalarDecode(seq![f.key], ScalarDecodeFailure::Expected(ScalarKind::Signed))),
    }
}

pub open spec fn apply_modifier(m: CountryModifierV, f: NodeV) -> Result<CountryModifierV, ErrV> {
    let k = f.key;
    if k == "name".spec_bytes() {
        match f.value {
            ValueV::Scalar(w) => Ok(CountryModifierV { name: windows1252_text(w), ..m }),
            _ => Ok(m),
        }
    } else if k == "duration".spec_bytes() {
        match signed_field(f) {
            Ok(d) => Ok(CountryModifierV { duration: Some(d), ..m }),
            Err(e) => Err(e),
        }
    } else if k == "desc".spec_bytes() {
        match f.value {
            ValueV::Scalar(w) => Ok(CountryModifierV { desc: Some(windows1252_text(w)), ..m }),
            _ => Ok(m),
        }
    } else if k == "hidden".spec_bytes() {
        Ok(CountryModifierV { hidden: true, ..m })
    } else {
        Err(ErrV::UnmodeledStructure(seq![k]))
    }
}

/// The country modifier that the first `k` statements describe.
pub open spec fn modifier_fields(ns: Seq<NodeV>, k: int) -> Result<CountryModifierV, ErrV>
    decreases k,
{
    if k <= 0 || k > ns.len() {
        Ok(empty_modifier())
    } else {
        match modifier_fields(ns, k - 1) {
            Ok(m) => apply_modifier(m, ns[k - 1]),
            Err(e) => Err(e),
        }
    }
}

pub open spec fn apply_event(ev: CountryEventV, f: NodeV) -> Result<CountryEventV, ErrV> {
    let k = f.key;
    if k == "id".spec_bytes() {
        match f.value {
            ValueV::Scalar(w) => Ok(CountryEventV { id: windows1252_text(w), ..ev }),
            _ => Ok(ev),
        }
    } else if k == "days".spec_bytes() {
        match unsigned_field(f) {
            Ok(d) => Ok(CountryEventV { days: Some(d), ..ev }),
            Err(e) => Err(e),
        }
    } else if k == "random".spec_bytes() {
        match unsigned_field(f) {
            Ok(d) => Ok(CountryEventV { random: Some(d), ..ev }),
            Err(e) => Err(e),
        }
    } else if k == "tooltip".spec_bytes() {
        match f.value {
            ValueV::Scalar(w) => Ok(CountryEventV { tooltip: Some(windows1252_text(w)), ..ev }),
            _ => Ok(ev),
        }
    } else {
        Err(ErrV::UnmodeledStructure(seq![k]))
    }
}

/// The country event that the first `k` statements describe.
pub open spec fn event_fields(ns: Seq<NodeV>, k: int) -> Result<CountryEventV, ErrV>
    decreases k,
{
    if k <= 0 || k > ns.len() {
        Ok(empty_event())
    } else {
        match event_fields(ns, k - 1) {
            Ok(ev) => apply_event(ev, ns[k - 1]),
            Err(e) => Err(e),
        }
    }
}

pub open spec fn apply_effect(e: EffectV, f: NodeV) -> Result<EffectV, ErrV> {
    let k = f.key;
    if k == "custom_tooltip".spec_bytes() && f.value is Scalar {
        Ok(EffectV { custom_tooltip: Some(windows1252_text(f.value->Scalar_0)), ..e })
    } else if k == "add_country_modifier".spec_bytes() || k == "remove_country_modifier".spec_bytes() {
        match f.value {
            ValueV::Object(ns) => match modifier_fields(ns, ns.len() as int) {
                Err(x) => Err(within(k, x)),
                Ok(m) => if k == "add_country_modifier".spec_bytes() {
                    Ok(EffectV { country_modifiers: e.country_modifiers.push(m), ..e })
                } else {
                    Ok(EffectV { remove_country_modifiers: e.remove_country_modifiers.push(m), ..e })
                },
            },
            _ => Ok(e),
        }
    } else if k == "set_country_flag".spec_bytes() || k == "clr_country_flag".spec_bytes() {
        match f.value {
            ValueV::Scalar(w) => if k == "set_country_flag".spec_bytes() {
                Ok(EffectV { set_country_flag: e.set_country_flag.push(windows1252_text(w)), ..e })
            } else {
                Ok(EffectV { clr_country_flag: e.clr_country_flag.push(windows1252_text(w)), ..e })
            },
            _ => Ok(e),
        }
    } else if k == "country_event".spec_bytes() {
        match f.value {
            ValueV::Object(ns) => match event_fields(ns, ns.len() as int) {
                Err(x) => Err(within(k, x)),
                Ok(ev) => Ok(EffectV { country_events: e.country_events.push(ev), ..e }),
            },
            _ => Ok(e),
        }
    } else if f.value is Object {
        Ok(EffectV { scopes: e.scopes.push(k), ..e })
    } else {
        Ok(EffectV { misc: Some(misc_text(e.misc) + node_text(f)), ..e })
    }
}

/// The effect that the first `k` statements describe.
pub open spec fn effect_fields(ns: Seq<NodeV>, k: int) -> Result<EffectV, ErrV>
    decreases k,
{
    if k <= 0 || k > ns.len() {
        Ok(empty_effect())
    } else {
        match effect_fields(ns, k - 1) {
            Ok(e) => apply_effect(e, ns[k - 1]),
            Err(x) => Err(x),
        }
    }
}

pub open spec fn effect_result(r: Result<Effect, ProjectionError>) -> Result<EffectV, ErrV> {
    match r {
        Ok(e) => Ok(effect_view(e)),
        Err(x) => Err(err_view(x)),
    }
}

fn read_unsigned(f: &Node) -> (r: Result<u64, ProjectionError>)
    ensures
        match r {
            Ok(n) => unsigned_field(node_view(*f)) == Ok::<u64, ErrV>(n),
            Err(x) => unsigned_field(node_view(*f)) == Err::<u64, ErrV>(err_view(x)),
        },
{
    match &f.value {
        Value::Scalar(w) => match to_u64(w.as_slice()) {
            Ok(n) => Ok(n),
            Err(x) => Err(undecodable(&f.key, x)),
        },
        _ => Err(undecodable(&f.key, ScalarDecodeFailure::Expected(ScalarKind::Unsigned))),
    }
}

fn read_signed(f: &Node) -> (r: Result<i64, ProjectionError>)
    ensures
        match r {
            Ok(n) => signed_field(node_view(*f)) == Ok::<i64, ErrV>(n),
            Err(x) => signed_field(node_view(*f)) == Err::<i64, ErrV>(err_view(x)),
        },
{
    match &f.value {
        Value::Scalar(w) => match to_i64(w.as_slice()) {
            Ok(n) => Ok(n),
            Err(x) => Err(undecodable(&f.key, x)),
        },
        _ => Err(undecodable(&f.key, ScalarDecodeFailure::Expected(ScalarKind::Signed))),
    }
}

proof fn lemma_modifier_error_stays(ns: Seq<NodeV>, j: int, m: int)
    requires
        0 <= j <= m <= ns.len(),
        modifier_fields(ns, j) is Err,
    ensures
        modifier_fields(ns, m) == modifier_fields(ns, j),
    decreases m - j,
{
    if m > j {
        lemma_modifier_error_stays(ns, j, m - 1);
    }
}

proof fn lemma_event_error_stays(ns: Seq<NodeV>, j: int, m: int)
    requires
        0 <= j <= m <= ns.len(),
        event_fields(ns, j) is Err,
    ensures
        event_fields(ns, m) == event_fields(ns, j),
    decreases m - j,
{
    if m > j {
        lemma_event_error_stays(ns, j, m - 1);
    }
}

proof fn lemma_effect_error_stays(ns: Seq<NodeV>, j: int, m: int)
    requires
        0 <= j <= m <= ns.len(),
        effect_fields(ns, j) is Err,
    ensures
        effect_fields(ns, m) == effect_fields(ns, j),
    decreases m - j,
{
    if m > j {
        lemma_effect_error_stays(ns, j, m - 1);
    }
}

/// Reads the statements of an `add_country_modifier` or `remove_country_modifier` block.
pub fn build_country_modifier(ns: &Vec<Node>) -> (r: Result<CountryModifier, ProjectionError>)
    ensures
        match r {
            Ok(m) => modifier_fields(nodes_view(ns@), ns@.len() as int) == Ok::<CountryModifierV, ErrV>(modifier_view(m)),
            Err(x) => modifier_fields(nodes_view(ns@), ns@.len() as int) == Err::<CountryModifierV, ErrV>(err_view(x)),
        },
{
    let ghost nv = nodes_view(ns@);
    let mut m = CountryModifier { name: String::new(), duration: None, desc: None, hidden: false };
    let mut k: usize = 0;
    while k < ns.len()
        invariant
            k <= ns@.len(),
            nv == nodes_view(ns@),
            modifier_fields(nv, k as int) == Ok::<CountryModifierV, ErrV>(modifier_view(m)),
        decreases ns@.len() - k,
    {
        let f = &ns[k];
        assert(nv[k as int] == node_view(ns@[k as int]));
        let key = &f.key;
        if key_is(key.as_slice(), "name") {
            if let Value::Scalar(w) = &f.value {
                m.name = to_text(w.as_slice());
            }
        } else if key_is(key.as_slice(), "duration") {
            match read_signed(f) {
                Ok(d) => {
                    m.duration = Some(d);
                },
                Err(x) => {
                    proof {
                        lemma_modifier_error_stays(nv, k + 1, nv.len() as int);
                    }
                    return Err(x);
                },
            }
        } else if key_is(key.as_slice(), "desc") {
            if let Value::Scalar(w) = &f.value {
                m.desc = Some(to_text(w.as_slice()));
            }
        } else if key_is(key.as_slice(), "hidden") {
            m.hidden = true;
        } else {
            proof {
                lemma_modifier_error_stays(nv, k + 1, nv.len() as int);
            }
            return Err(unmodeled(key));
        }
        k = k + 1;
    }
    Ok(m)
}

/// Reads the statements of a `country_event` block.
pub fn build_country_event(ns: &Vec<Node>) -> (r: Result<CountryEvent, ProjectionError>)
    ensures
        match r {
            Ok(ev) => event_fields(nodes_view(ns@), ns@.len() as int) == Ok::<CountryEventV, ErrV>(event_view(ev)),
            Err(x) => event_fields(nodes_view(ns@), ns@.len() as int) == Err::<CountryEventV, ErrV>(err_view(x)),
        },
{
    let ghost nv = nodes_view(ns@);
    let mut ev = CountryEvent { id: String::new(), days: None, random: None, tooltip: None };
    let mut k: usize = 0;
    while k < ns.len()
        invariant
            k <= ns@.len(),
            nv == nodes_view(ns@),
            event_fields(nv, k as int) == Ok::<CountryEventV, ErrV>(event_view(ev)),
        decreases ns@.len() - k,
    {
        let f = &ns[k];
        assert(nv[k as int] == node_view(ns@[k as int]));
        let key = &f.key;
        if key_is(key.as_slice(), "id") {
            if let Value::Scalar(w) = &f.value {
                ev.id = to_text(w.as_slice());
            }
        } else if key_is(key.as_slice(), "days") || key_is(key.as_slice(), "random") {
            match read_unsigned(f) {
                Ok(d) => {
                    if key_is(key.as_slice(), "days") {
                        ev.days = Some(d);
                    } else {
                        ev.random = Some(d);
                    }
                },
                Err(x) => {
                    proof {
                        lemma_event_error_stays(nv, k + 1, nv.len() as int);
                    }
                    return Err(x);
                },
            }
        } else if key_is(key.as_slice(), "tooltip") {
            if let Value::Scalar(w) = &f.value {
                ev.tooltip = Some(to_text(w.as_slice()));
            }
        } else {
            proof {
                lemma_event_error_stays(nv, k + 1, nv.len() as int);
            }
            return Err(unmodeled(key));
        }
        k = k + 1;
    }
    Ok(ev)
}

/// Builds the effect that an `effect` block describes; any other value gives an empty one.
pub fn build_effect(ns: &Vec<Node>) -> (r: Result<Effect, ProjectionError>)
    ensures
        effect_result(r) == effect_fields(nodes_view(ns@), ns@.len() as int),
{
    let ghost nv = nodes_view(ns@);
    let mut e = Effect {
        misc: None,
        custom_tooltip: None,
        country_events: Vec::new(),
        country_modifiers: Vec::new(),
        remove_country_modifiers: Vec::new(),
        set_country_flag: Vec::new(),
        clr_country_flag: Vec::new(),
        scopes: Vec::new(),
    };
    assert(effect_view(e).country_events =~= seq![]);
    assert(effect_view(e).country_modifiers =~= seq![]);
    assert(effect_view(e).remove_country_modifiers =~= seq![]);
    assert(effect_view(e).set_country_flag =~= seq![]);
    assert(effect_view(e).clr_country_flag =~= seq![]);
    assert(effect_view(e).scopes =~= seq![]);
    let mut k: usize = 0;
    while k < ns.len()
        invariant
            k <= ns@.len(),
            nv == nodes_view(ns@),
            effect_fields(nv, k as int) == Ok::<EffectV, ErrV>(effect_view(e)),
        decreases ns@.len() - k,
    {
        let f = &ns[k];
        assert(nv[k as int] == node_view(ns@[k as int]));
        let ghost before = effect_view(e);
        let key = &f.key;
        let is_add = key_is(key.as_slice(), "add_country_modifier");
        let is_set = key_is(key.as_slice(), "set_country_flag");
        if key_is(key.as_slice(), "custom_tooltip") && matches!(f.value, Value::Scalar(_)) {
            if let Value::Scalar(w) = &f.value {
                e.custom_tooltip = Some(to_text(w.as_slice()));
            }
        } else if is_add || key_is(key.as_slice(), "remove_country_modifier") {
            if let Value::Object(inner) = &f.value {
                match build_country_modifier(inner) {
                    Ok(m) => {
                        let ghost mv = modifier_view(m);
                        if is_add {
                            e.country_modifiers.push(m);
                            assert(effect_view(e).country_modifiers =~= before.country_modifiers.push(mv));
                        } else {
                            e.remove_country_modifiers.push(m);
                            assert(effect_view(e).remove_country_modifiers =~= before.remove_country_modifiers.push(mv));
                        }
                    },
                    Err(x) => {
                        proof {
                            lemma_effect_error_stays(nv, k + 1, nv.len() as int);
                        }
                        return Err(within_key(key, x));
                    },
                }
            }
        } else if is_set || key_is(key.as_slice(), "clr_country_flag") {
            if let Value::Scalar(w) = &f.value {
                let x = to_text(w.as_slice());
                let ghost xv = x@;
                if is_set {
                    e.set_country_flag.push(x);
                    assert(effect_view(e).set_country_flag =~= before.set_country_flag.push(xv));
                } else {
                    e.clr_country_flag.push(x);
                    assert(effect_view(e).clr_country_flag =~= before.clr_country_flag.push(xv));
                }
            }
        } else if key_is(key.as_slice(), "country_event") {
            if let Value::Object(inner) = &f.value {
                match build_country_event(inner) {
                    Ok(ev) => {
                        let ghost evv = event_view(ev);
                        e.country_events.push(ev);
                        assert(effect_view(e).country_events =~= before.country_events.push(evv));
                    },
                    Err(x) => {
                        proof {
                            lemma_effect_error_stays(nv, k + 1, nv.len() as int);
                        }
                        return Err(within_key(key, x));
                    },
                }
            }
        } else if matches!(f.value, Value::Object(_)) {
            e.scopes.push(crate::error::copy_key(key));
            assert(effect_view(e).scopes =~= before.scopes.push(key@));
        } else {
            let m = e.misc;
            e.misc = Some(append_misc(m, f));
        }
        k = k + 1;
    }
    Ok(e)
}

} // verus!
