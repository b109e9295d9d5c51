//! Mission trees: flags, a potential trigger and the missions of each tree.
use vstd::prelude::*;
use vstd::string::{StringExecFns, StringSliceAdditionalSpecFns};
use crate::effect::{Effect, EffectV, build_effect, effect_fields, effect_view};
use crate::error::{ErrV, ProjectionError, err_view, undecodable, unmodeled, within, within_key};
use crate::localisation::{LocalisationIndex, find_text, index_view, lookup_in};
use crate::scalar::{ScalarDecodeFailure, ScalarKind, to_text, to_u64, unsigned_text, windows1252_text};
use crate::text::key_is;
use crate::tree::{Node, NodeV, Value, ValueV, node_view, nodes_view, parse_tree, parsed, value_view};
use crate::trigger::{
    Trigger, TriggerV, build_trigger, lemma_trigger_failure_ignores_localisation, same_failure,
    text_view, trigger_of, trigger_view,
};

verus! {

/// One mission.
#[derive(Debug)]
pub struct Mission {
    pub id: String,
    pub title: Option<String>,
    pub desc: Option<String>,
    pub icon: Option<String>,
    pub position: Option<u64>,
    pub required_missions: Vec<String>,
    pub trigger: Option<Trigger>,
    pub effect: Option<Effect>,
    pub provinces_to_highlight: Option<Trigger>,
}

/// One tree of missions, with the flags and trigger that choose who gets it.
#[derive(Debug)]
pub struct MissionTree {
    pub generic: bool,
    pub ai: bool,
    pub has_country_shield: bool,
    pub slot: Option<u64>,
    pub missions: Vec<Mission>,
    pub potential: Option<Trigger>,
}

pub struct MissionV {
    pub id: Seq<char>,
    pub title: Option<Seq<char>>,
    pub desc: Option<Seq<char>>,
    pub icon: Option<Seq<char>>,
    pub position: Option<u64>,
    pub required_missions: Seq<Seq<char>>,
    pub trigger: Option<TriggerV>,
    pub effect: Option<EffectV>,
    pub provinces_to_highlight: Option<TriggerV>,
}

pub struct MissionTreeV {
    pub generic: bool,
    pub ai: bool,
    pub has_country_shield: bool,
    pub slot: Option<u64>,
    pub missions: Seq<MissionV>,
    pub potential: Option<TriggerV>,
}

pub open spec fn opt_trigger_view(t: Option<Trigger>) -> Option<TriggerV> {
    match t {
        Some(x) => Some(trigger_view(x)),
        None => None,
    }
}

pub open spec fn mission_view(m: Mission) -> MissionV {
    MissionV {
        id: m.id@,
        title: text_view(m.title),
        desc: text_view(m.desc),
        icon: text_view(m.icon),
        position: m.position,
        required_missions: m.required_missions@.map_values(|x: String| x@),
        trigger: opt_trigger_view(m.trigger),
        effect: match m.effect {
            Some(e) => Some(effect_view(e)),
            None => None,
        },
        provinces_to_highlight: opt_trigger_view(m.provinces_to_highlight),
    }
}

pub open spec fn tree_view(t: MissionTree) -> MissionTreeV {
    MissionTreeV {
        generic: t.generic,
        ai: t.ai,
        has_country_shield: t.has_country_shield,
        slot: t.slot,
        missions: t.missions@.map_values(|m: Mission| mission_view(m)),
        potential: opt_trigger_view(t.potential),
    }
}

pub open spec fn empty_mission() -> MissionV {
    MissionV {
        id: Seq::empty(),
        title: None,
        desc: None,
        icon: None,
        position: None,
        required_missions: seq![],
        trigger: None,
        effect: None,
        provinces_to_highlight: None,
    }
}

pub open spec fn empty_tree() -> MissionTreeV {
    MissionTreeV {
        generic: false,
        ai: false,
        has_country_shield: false,
        slot: None,
        missions: seq![],
        potential: None,
    }
}

pub open spec fn words_as_text(ws: Seq<Seq<u8>>) -> Seq<Seq<char>> {
    ws.map_values(|w: Seq<u8>| windows1252_text(w))
}

/// A mission under construction: the record, and whether a `position` or `trigger`
/// has shown it to be a mission.
#[verifier::opaque]
pub open spec fn apply_mission(
    m: (MissionV, bool),
    f: NodeV,
    loc: Option<Seq<(Seq<char>, Seq<char>)>>,
) -> Result<(MissionV, bool), ErrV> {
    let (r, seen) = m;
    let k = f.key;
    if k == "icon".spec_bytes() {
        match f.value {
            ValueV::Scalar(w) => Ok((MissionV { icon: Some(windows1252_text(w)), ..r }, seen)),
            _ => Ok(m),
        }
    } else if k == "position".spec_bytes() {
        match f.value {
            ValueV::Scalar(w) => match unsigned_text(w) {
                Some(p) => Ok((MissionV { position: Some(p), ..r }, true)),
                None => Err(ErrV::ScalarDecode(seq![k], ScalarDecodeFailure::Expected(ScalarKind::Unsigned))),
            },
            _ => Err(ErrV::ScalarDecode(seq![k], ScalarDecodeFailure::Expected(ScalarKind::Unsigned))),
        }
    } else if k == "required_missions".spec_bytes() {
        match f.value {
            ValueV::Array(ws) => Ok((MissionV { required_missions: r.required_missions + words_as_text(ws), ..r }, seen)),
            _ => Ok(m),
        }
    } else if k == "provinces_to_highlight".spec_bytes() || k == "trigger".spec_bytes() {
        match trigger_of(f.value, loc, 0) {
            Err(e) => Err(within(k, e)),
            Ok(t) => if k == "trigger".spec_bytes() {
                Ok((MissionV { trigger: Some(t), ..r }, true))
            } else {
                Ok((MissionV { provinces_to_highlight: Some(t), ..r }, seen))
            },
        }
    } else if k == "effect".spec_bytes() {
        match f.value {
            ValueV::Object(ns) => match effect_fields(ns, ns.len() as int) {
                Err(e) => Err(within(k, e)),
                Ok(e) => Ok((MissionV { effect: Some(e), ..r }, seen)),
            },
            _ => Ok(m),
        }
    } else if k == "ai_weight".spec_bytes() {
        Ok(m)
    } else {
        Err(ErrV::UnmodeledStructure(seq![k]))
    }
}

pub open spec fn mission_fields(
    ns: Seq<NodeV>,
    k: int,
    loc: Option<Seq<(Seq<char>, Seq<char>)>>,
) -> Result<(MissionV, bool), ErrV>
    decreases k,
{
    if k <= 0 || k > ns.len() {
        Ok((empty_mission(), false))
    } else {
        match mission_fields(ns, k - 1, loc) {
            Ok(m) => apply_mission(m, ns[k - 1], loc),
            Err(e) => Err(e),
        }
    }
}

/// The mission that the statement `key = value` describes: none unless the value is an
/// object with a `position` or a `trigger`; its title and description are looked up
/// under `<id>_title` and `<id>_desc`.
pub open spec fn mission_of(
    key: Seq<u8>,
    v: ValueV,
    loc: Option<Seq<(Seq<char>, Seq<char>)>>,
) -> Result<Option<MissionV>, ErrV> {
    match v {
        ValueV::Object(ns) => match mission_fields(ns, ns.len() as int, loc) {
            Err(e) => Err(within(key, e)),
            Ok((r, seen)) => if seen {
                let id = windows1252_text(key);
                Ok(
                    Some(
                        MissionV {
                            id,
                            title: lookup_in(loc, id + "_title"@),
                            desc: lookup_in(loc, id + "_desc"@),
                            ..r
                        },
                    ),
                )
            } else {
                Ok(None)
            },
        },
        _ => Ok(None),
    }
}

pub open spec fn is_yes(v: ValueV) -> bool {
    v == ValueV::Scalar("yes".spec_bytes())
}

#[verifier::opaque]
pub open spec fn apply_tree(
    t: MissionTreeV,
    f: NodeV,
    loc: Option<Seq<(Seq<char>, Seq<char>)>>,
) -> Result<MissionTreeV, ErrV> {
    let k = f.key;
    if k == "generic".spec_bytes() {
        Ok(MissionTreeV { generic: t.generic || is_yes(f.value), ..t })
    } else if k == "ai".spec_bytes() {
        Ok(MissionTreeV { ai: t.ai || is_yes(f.value), ..t })
    } else if k == "has_country_shield".spec_bytes() {
        Ok(MissionTreeV { has_country_shield: t.has_country_shield || is_yes(f.value), ..t })
    } else if k == "slot".spec_bytes() {
        match f.value {
            ValueV::Scalar(w) => match unsigned_text(w) {
                Some(s) => Ok(MissionTreeV { slot: Some(s), ..t }),
                None => Err(ErrV::ScalarDecode(seq![k], ScalarDecodeFailure::Expected(ScalarKind::Unsigned))),
            },
            _ => Err(ErrV::ScalarDecode(seq![k], ScalarDecodeFailure::Expected(ScalarKind::Unsigned))),
        }
    } else if k == "potential".spec_bytes() {
        match trigger_of(f.value, loc, 0) {
            Err(e) => Err(within(k, e)),
            Ok(p) => Ok(MissionTreeV { potential: Some(p), ..t }),
        }
    } else if k == "potential_on_load".spec_bytes() {
        Ok(t)
    } else {
        match mission_of(k, f.value, loc) {
            Err(e) => Err(e),
            Ok(Some(m)) => Ok(MissionTreeV { missions: t.missions.push(m), ..t }),
            Ok(None) => Ok(t),
        }
    }
}

pub open spec fn tree_fields(
    ns: Seq<NodeV>,
    k: int,
    loc: Option<Seq<(Seq<char>, Seq<char>)>>,
) -> Result<MissionTreeV, ErrV>
    decreases k,
{
    if k <= 0 || k > ns.len() {
        Ok(empty_tree())
    } else {
        match tree_fields(ns, k - 1, loc) {
            Ok(t) => apply_tree(t, ns[k - 1], loc),
            Err(e) => Err(e),
        }
    }
}

/// The mission tree of one top-level statement; a value that is no object gives an
/// empty tree.
pub open spec fn tree_of(f: NodeV, loc: Option<Seq<(Seq<char>, Seq<char>)>>) -> Result<
    MissionTreeV,
    ErrV,
> {
    match f.value {
        ValueV::Object(ns) => match tree_fields(ns, ns.len() as int, loc) {
            Ok(t) => Ok(t),
            Err(e) => Err(within(f.key, e)),
        },
        _ => Ok(empty_tree()),
    }
}

/// The trees of the first `k` top-level statements.
pub open spec fn trees_of(ns: Seq<NodeV>, k: int, loc: Option<Seq<(Seq<char>, Seq<char>)>>) -> Result<
    Seq<MissionTreeV>,
    ErrV,
>
    decreases k,
{
    if k <= 0 || k > ns.len() {
        Ok(seq![])
    } else {
        match trees_of(ns, k - 1, loc) {
            Err(e) => Err(e),
            Ok(ts) => match tree_of(ns[k - 1], loc) {
                Err(e) => Err(e),
                Ok(t) => Ok(ts.push(t)),
            },
        }
    }
}

/// What a mission file gives: one tree per top-level statement.
pub open spec fn mission_file(b: Seq<u8>, loc: Option<Seq<(Seq<char>, Seq<char>)>>) -> Result<
    Seq<MissionTreeV>,
    ErrV,
> {
    match parsed(b) {
        Err(o) => Err(ErrV::MalformedSyntax(o)),
        Ok(ns) => trees_of(ns, ns.len() as int, loc),
    }
}

proof fn lemma_mission_error_stays(ns: Seq<NodeV>, j: int, m: int, loc: Option<Seq<(Seq<char>, Seq<char>)>>)
    requires
        0 <= j <= m <= ns.len(),
        mission_fields(ns, j, loc) is Err,
    ensures
        mission_fields(ns, m, loc) == mission_fields(ns, j, loc),
    decreases m - j,
{
    if m > j {
        lemma_mission_error_stays(ns, j, m - 1, loc);
    }
}

proof fn lemma_tree_error_stays(ns: Seq<NodeV>, j: int, m: int, loc: Option<Seq<(Seq<char>, Seq<char>)>>)
    requires
        0 <= j <= m <= ns.len(),
        tree_fields(ns, j, loc) is Err,
    ensures
        tree_fields(ns, m, loc) == tree_fields(ns, j, loc),
    decreases m - j,
{
    if m > j {
        lemma_tree_error_stays(ns, j, m - 1, loc);
    }
}

proof fn lemma_trees_error_stays(ns: Seq<NodeV>, j: int, m: int, loc: Option<Seq<(Seq<char>, Seq<char>)>>)
    requires
        0 <= j <= m <= ns.len(),
        trees_of(ns, j, loc) is Err,
    ensures
        trees_of(ns, m, loc) == trees_of(ns, j, loc),
    decreases m - j,
{
    if m > j {
        lemma_trees_error_stays(ns, j, m - 1, loc);
    }
}

pub fn words_to_text(ws: &Vec<Vec<u8>>, out: &mut Vec<String>)
    ensures
        final(out)@.map_values(|x: String| x@) == old(out)@.map_values(|x: String| x@)
            + words_as_text(ws@.map_values(|w: Vec<u8>| w@)),
{
    let ghost start = old(out)@.map_values(|x: String| x@);
    let ghost wv = ws@.map_values(|w: Vec<u8>| w@);
    let mut k: usize = 0;
    while k < ws.len()
        invariant
            k <= ws@.len(),
            wv == ws@.map_values(|w: Vec<u8>| w@),
            out@.map_values(|x: String| x@) == start + words_as_text(wv.take(k as int)),
        decreases ws@.len() - k,
    {
        let ghost before = out@.map_values(|x: String| x@);
        out.push(to_text(ws[k].as_slice()));
        assert(words_as_text(wv.take(k + 1)) =~= words_as_text(wv.take(k as int)).push(
            windows1252_text(wv[k as int]),
        ));
        assert(out@.map_values(|x: String| x@) =~= before.push(windows1252_text(wv[k as int])));
        k = k + 1;
    }
    assert(wv.take(ws@.len() as int) =~= wv);
}

fn opt_trigger(r: Trigger) -> (o: Option<Trigger>)
    ensures
        opt_trigger_view(o) == Some(trigger_view(r)),
{
    Some(r)
}

fn apply_mission_field(m: Mission, seen: bool, f: &Node, loc: Option<&LocalisationIndex>) -> (r: Result<
    (Mission, bool),
    ProjectionError,
>)
    ensures
        match r {
            Ok((m2, s2)) => apply_mission((mission_view(m), seen), node_view(*f), index_view(loc))
                == Ok::<(MissionV, bool), ErrV>((mission_view(m2), s2)),
            Err(e) => apply_mission((mission_view(m), seen), node_view(*f), index_view(loc))
                == Err::<(MissionV, bool), ErrV>(err_view(e)),
        },
{
    reveal(apply_mission);
    let mut m = m;
    let mut seen = seen;
    let fk = &f.key;
    let is_trigger = key_is(fk.as_slice(), "trigger");
    if key_is(fk.as_slice(), "icon") {
        if let Value::Scalar(w) = &f.value {
            m.icon = Some(to_text(w.as_slice()));
        }
    } else if key_is(fk.as_slice(), "position") {
        let p = match &f.value {
            Value::Scalar(w) => to_u64(w.as_slice()),
            _ => Err(ScalarDecodeFailure::Expected(ScalarKind::Unsigned)),
        };
        match p {
            Ok(p) => {
                m.position = Some(p);
                seen = true;
            },
            Err(x) => {
                return Err(undecodable(fk, x));
            },
        }
    } else if key_is(fk.as_slice(), "required_missions") {
        if let Value::Array(ws) = &f.value {
            words_to_text(ws, &mut m.required_missions);
        }
    } else if is_trigger || key_is(fk.as_slice(), "provinces_to_highlight") {
        match build_trigger(&f.value, loc, 0) {
            Ok(t) => {
                if is_trigger {
                    m.trigger = opt_trigger(t);
                    seen = true;
                } else {
                    m.provinces_to_highlight = opt_trigger(t);
                }
            },
            Err(e) => {
                return Err(within_key(fk, e));
            },
        }
    } else if key_is(fk.as_slice(), "effect") {
        if let Value::Object(inner) = &f.value {
            match build_effect(inner) {
                Ok(e) => {
                    m.effect = Some(e);
                },
                Err(e) => {
                    return Err(within_key(fk, e));
                },
            }
        }
    } else if key_is(fk.as_slice(), "ai_weight") {
    } else {
        return Err(unmodeled(fk));
    }
    Ok((m, seen))
}

/// Reads one mission from the statement `key = value` of a mission tree.
pub fn parse_mission(key: &Vec<u8>, v: &Value, loc: Option<&LocalisationIndex>) -> (r: Result<
    Option<Mission>,
    ProjectionError,
>)
    ensures
        match r {
            Ok(Some(m)) => mission_of(key@, value_view(*v), index_view(loc)) == Ok::<Option<MissionV>, ErrV>(Some(mission_view(m))),
            Ok(None) => mission_of(key@, value_view(*v), index_view(loc)) == Ok::<Option<MissionV>, ErrV>(None),
            Err(e) => mission_of(key@, value_view(*v), index_view(loc)) == Err::<Option<MissionV>, ErrV>(err_view(e)),
        },
{
    let ns = match v {
        Value::Object(ns) => ns,
        _ => {
            return Ok(None);
        },
    };
    let ghost nv = nodes_view(ns@);
    let ghost lv = index_view(loc);
    assert(value_view(*v) == ValueV::Object(nv));
    let mut m = Mission {
        id: String::new(),
        title: None,
        desc: None,
        icon: None,
        position: None,
        required_missions: Vec::new(),
        trigger: None,
        effect: None,
        provinces_to_highlight: None,
    };
    assert(mission_view(m).required_missions =~= seq![]);
    let mut seen = false;
    let mut k: usize = 0;
    while k < ns.len()
        invariant
            k <= ns@.len(),
            nv == nodes_view(ns@),
            lv == index_view(loc),
            value_view(*v) == ValueV::Object(nv),
            mission_fields(nv, k as int, lv) == Ok::<(MissionV, bool), ErrV>((mission_view(m), seen)),
        decreases ns@.len() - k,
    {
        assert(nv[k as int] == node_view(ns@[k as int]));
        match apply_mission_field(m, seen, &ns[k], loc) {
            Ok((m2, s2)) => {
                m = m2;
                seen = s2;
            },
            Err(e) => {
                proof {
                    lemma_mission_error_stays(nv, k + 1, nv.len() as int, lv);
                }
                return Err(within_key(key, e));
            },
        }
        k = k + 1;
    }
    if !seen {
        return Ok(None);
    }
    let id = to_text(key.as_slice());
    m.title = find_text(loc, &id.clone().concat("_title"));
    m.desc = find_text(loc, &id.clone().concat("_desc"));
    m.id = id;
    Ok(Some(m))
}

fn is_yes_value(v: &Value) -> (r: bool)
    ensures
        r == is_yes(value_view(*v)),
{
    match v {
        Value::Scalar(w) => key_is(w.as_slice(), "yes"),
        _ => false,
    }
}

fn apply_tree_field(t: MissionTree, f: &Node, loc: Option<&LocalisationIndex>) -> (r: Result<
    MissionTree,
    ProjectionError,
>)
    ensures
        match r {
            Ok(t2) => apply_tree(tree_view(t), node_view(*f), index_view(loc)) == Ok::<MissionTreeV, ErrV>(tree_view(t2)),
            Err(e) => apply_tree(tree_view(t), node_view(*f), index_view(loc)) == Err::<MissionTreeV, ErrV>(err_view(e)),
        },
{
    reveal(apply_tree);
    let mut t = t;
    let fk = &f.key;
    if key_is(fk.as_slice(), "generic") {
        t.generic = t.generic || is_yes_value(&f.value);
    } else if key_is(fk.as_slice(), "ai") {
        t.ai = t.ai || is_yes_value(&f.value);
    } else if key_is(fk.as_slice(), "has_country_shield") {
        t.has_country_shield = t.has_country_shield || is_yes_value(&f.value);
    } else if key_is(fk.as_slice(), "slot") {
        let s = match &f.value {
            Value::Scalar(w) => to_u64(w.as_slice()),
            _ => Err(ScalarDecodeFailure::Expected(ScalarKind::Unsigned)),
        };
        match s {
            Ok(s) => {
                t.slot = Some(s);
            },
            Err(x) => {
                return Err(undecodable(fk, x));
            },
        }
    } else if key_is(fk.as_slice(), "potential") {
        match build_trigger(&f.value, loc, 0) {
            Ok(p) => {
                t.potential = opt_trigger(p);
            },
            Err(e) => {
                return Err(within_key(fk, e));
            },
        }
    } else if key_is(fk.as_slice(), "potential_on_load") {
    } else {
        match parse_mission(fk, &f.value, loc) {
            Ok(Some(m)) => {
                let ghost before = tree_view(t).missions;
                let ghost mv = mission_view(m);
                t.missions.push(m);
                assert(tree_view(t).missions =~= before.push(mv));
            },
            Ok(None) => {},
            Err(e) => {
                return Err(e);
            },
        }
    }
    Ok(t)
}

/// Reads the mission tree of one top-level statement.
pub fn parse_mission_tree(f: &Node, loc: Option<&LocalisationIndex>) -> (r: Result<
    MissionTree,
    ProjectionError,
>)
    ensures
        match r {
            Ok(t) => tree_of(node_view(*f), index_view(loc)) == Ok::<MissionTreeV, ErrV>(tree_view(t)),
            Err(e) => tree_of(node_view(*f), index_view(loc)) == Err::<MissionTreeV, ErrV>(err_view(e)),
        },
{
    let mut t = MissionTree {
        generic: false,
        ai: false,
        has_country_shield: false,
        slot: None,
        missions: Vec::new(),
        potential: None,
    };
    assert(tree_view(t).missions =~= seq![]);
    let ns = match &f.value {
        Value::Object(ns) => ns,
        _ => {
            return Ok(t);
        },
    };
    let ghost nv = nodes_view(ns@);
    let ghost lv = index_view(loc);
    let mut k: usize = 0;
    while k < ns.len()
        invariant
            k <= ns@.len(),
            nv == nodes_view(ns@),
            lv == index_view(loc),
            node_view(*f).value == ValueV::Object(nv),
            tree_fields(nv, k as int, lv) == Ok::<MissionTreeV, ErrV>(tree_view(t)),
        decreases ns@.len() - k,
    {
        assert(nv[k as int] == node_view(ns@[k as int]));
        match apply_tree_field(t, &ns[k], loc) {
            Ok(t2) => {
                t = t2;
            },
            Err(e) => {
                proof {
                    lemma_tree_error_stays(nv, k + 1, nv.len() as int, lv);
                }
                return Err(within_key(&f.key, e));
            },
        }
        k = k + 1;
    }
    Ok(t)
}

/// Reads a mission file: one tree per top-level statement.
pub fn parse_mission_file(data: &[u8], loc: Option<&LocalisationIndex>) -> (r: Result<
    Vec<MissionTree>,
    ProjectionError,
>)
    ensures
        match r {
            Ok(ts) => mission_file(data@, index_view(loc)) == Ok::<Seq<MissionTreeV>, ErrV>(
                ts@.map_values(|t: MissionTree| tree_view(t)),
            ),
            Err(e) => mission_file(data@, index_view(loc)) == Err::<Seq<MissionTreeV>, ErrV>(err_view(e)),
        },
{
    let ns = match parse_tree(data) {
        Ok(ns) => ns,
        Err(crate::tree::ParseError::MalformedSyntax { offset }) => {
            return Err(ProjectionError::MalformedSyntax { offset });
        },
    };
    let ghost nv = nodes_view(ns@);
    let ghost lv = index_view(loc);
    let mut out: Vec<MissionTree> = Vec::new();
    let mut k: usize = 0;
    assert(out@.map_values(|t: MissionTree| tree_view(t)) =~= seq![]);
    while k < ns.len()
        invariant
            k <= ns@.len(),
            nv == nodes_view(ns@),
            lv == index_view(loc),
            parsed(data@) == Ok::<Seq<NodeV>, int>(nv),
            trees_of(nv, k as int, lv) == Ok::<Seq<MissionTreeV>, ErrV>(out@.map_values(|t: MissionTree| tree_view(t))),
        decreases ns@.len() - k,
    {
        assert(nv[k as int] == node_view(ns@[k as int]));
        match parse_mission_tree(&ns[k], loc) {
            Ok(t) => {
                let ghost before = out@.map_values(|t: MissionTree| tree_view(t));
                let ghost tv = tree_view(t);
                out.push(t);
                assert(out@.map_values(|t: MissionTree| tree_view(t)) =~= before.push(tv));
            },
            Err(e) => {
                proof {
                    lemma_trees_error_stays(nv, k + 1, nv.len() as int, lv);
                }
                return Err(e);
            },
        }
        k = k + 1;
    }
    Ok(out)
}

/// The texts held by some strings.
pub open spec fn text_set(s: Seq<String>) -> Set<Seq<char>> {
    Set::new(|x: Seq<char>| exists|i: int| 0 <= i < s.len() && (#[trigger] s[i])@ == x)
}

/// The tags that a `tag` or `was_tag` names in a value, outside any `NOT` block.
pub open spec fn tags_in(v: ValueV) -> Set<Seq<char>>
    decreases v, 0int,
{
    match v {
        ValueV::Object(ns) => tags_in_fields(ns, ns.len() as int),
        _ => Set::empty(),
    }
}

pub open spec fn tags_in_fields(ns: Seq<NodeV>, k: int) -> Set<Seq<char>>
    decreases ns, k,
{
    if k <= 0 || k > ns.len() {
        Set::empty()
    } else {
        let f = ns[k - 1];
        let here = if f.key == "NOT".spec_bytes() {
            Set::empty()
        } else if f.key == "tag".spec_bytes() || f.key == "was_tag".spec_bytes() {
            match f.value {
                ValueV::Scalar(w) => set![windows1252_text(w)],
                _ => Set::empty(),
            }
        } else {
            tags_in(f.value)
        };
        tags_in_fields(ns, k - 1).union(here)
    }
}

/// The tags named in the `potential` triggers of the first `k` trees of a file.
pub open spec fn potential_tags(ns: Seq<NodeV>, k: int) -> Set<Seq<char>>
    decreases k,
{
    if k <= 0 || k > ns.len() {
        Set::empty()
    } else {
        let here = match ns[k - 1].value {
            ValueV::Object(fs) => potential_tags_of_tree(fs, fs.len() as int),
            _ => Set::empty(),
        };
        potential_tags(ns, k - 1).union(here)
    }
}

pub open spec fn potential_tags_of_tree(fs: Seq<NodeV>, k: int) -> Set<Seq<char>>
    decreases k,
{
    if k <= 0 || k > fs.len() {
        Set::empty()
    } else {
        let here = if fs[k - 1].key == "potential".spec_bytes() {
            tags_in(fs[k - 1].value)
        } else {
            Set::empty()
        };
        potential_tags_of_tree(fs, k - 1).union(here)
    }
}

/// The tags of all files, or the first error.
pub open spec fn files_tags(files: Seq<Seq<u8>>, k: int) -> Result<Set<Seq<char>>, ErrV>
    decreases k,
{
    if k <= 0 || k > files.len() {
        Ok(Set::empty())
    } else {
        match files_tags(files, k - 1) {
            Err(e) => Err(e),
            Ok(s) => match parsed(files[k - 1]) {
                Err(o) => Err(ErrV::MalformedSyntax(o)),
                Ok(ns) => Ok(s.union(potential_tags(ns, ns.len() as int))),
            },
        }
    }
}

fn push_text(out: &mut Vec<String>, x: String)
    ensures
        text_set(final(out)@) == text_set(old(out)@).insert(x@),
{
    let ghost xv = x@;
    let ghost before = out@;
    out.push(x);
    assert(text_set(out@) =~= text_set(before).insert(xv)) by {
        assert forall|y: Seq<char>| text_set(before).insert(xv).contains(y) implies text_set(out@).contains(y) by {
            if y == xv {
                assert(out@[before.len() as int]@ == y);
            } else {
                let i = choose|i: int| 0 <= i < before.len() && (#[trigger] before[i])@ == y;
                assert(out@[i]@ == y);
            }
        }
        assert forall|y: Seq<char>| text_set(out@).contains(y) implies text_set(before).insert(xv).contains(y) by {
            let i = choose|i: int| 0 <= i < out@.len() && (#[trigger] out@[i])@ == y;
            if i < before.len() {
                assert(before[i]@ == y);
            }
        }
    }
}

fn collect_tags(v: &Value, out: &mut Vec<String>)
    ensures
        text_set(final(out)@) == text_set(old(out)@).union(tags_in(value_view(*v))),
    decreases *v, 0int,
{
    match v {
        Value::Object(ns) => {
            collect_tags_fields(ns, out);
        },
        _ => {
            assert(text_set(out@).union(Set::empty()) =~= text_set(out@));
        },
    }
}

fn collect_tags_fields(ns: &Vec<Node>, out: &mut Vec<String>)
    ensures
        text_set(final(out)@) == text_set(old(out)@).union(
            tags_in_fields(nodes_view(ns@), ns@.len() as int),
        ),
    decreases *ns, 1int,
{
    let ghost start = text_set(out@);
    let ghost nv = nodes_view(ns@);
    let mut k: usize = 0;
    assert(start.union(Set::empty()) =~= start);
    while k < ns.len()
        invariant
            k <= ns@.len(),
            nv == nodes_view(ns@),
            text_set(out@) == start.union(tags_in_fields(nv, k as int)),
        decreases ns@.len() - k,
    {
        assert(nv[k as int] == node_view(ns@[k as int]));
        let f = &ns[k];
        let ghost before = text_set(out@);
        if key_is(f.key.as_slice(), "NOT") {
            assert(before.union(Set::empty()) =~= before);
        } else if key_is(f.key.as_slice(), "tag") || key_is(f.key.as_slice(), "was_tag") {
            match &f.value {
                Value::Scalar(w) => {
                    let x = to_text(w.as_slice());
                    let ghost xv = x@;
                    push_text(out, x);
                    assert(before.insert(xv) =~= before.union(set![xv]));
                },
                _ => {
                    assert(before.union(Set::empty()) =~= before);
                },
            }
        } else {
            collect_tags(&f.value, out);
        }
        proof {
            let here = if nv[k as int].key == "NOT".spec_bytes() {
                Set::empty()
            } else if nv[k as int].key == "tag".spec_bytes() || nv[k as int].key == "was_tag".spec_bytes() {
                match nv[k as int].value {
                    ValueV::Scalar(w) => set![windows1252_text(w)],
                    _ => Set::empty(),
                }
            } else {
                tags_in(nv[k as int].value)
            };
            assert(text_set(out@) == before.union(here));
            assert(start.union(tags_in_fields(nv, k as int)).union(here) =~= start.union(
                tags_in_fields(nv, k as int).union(here),
            ));
        }
        k = k + 1;
    }
}

/// The tags that the `potential` triggers of mission files name, outside `NOT` blocks.
pub fn tags_with_missions(files: &Vec<Vec<u8>>) -> (r: Result<Vec<String>, ProjectionError>)
    ensures
        match r {
            Ok(ts) => files_tags(files@.map_values(|f: Vec<u8>| f@), files@.len() as int) == Ok::<Set<Seq<char>>, ErrV>(text_set(ts@)),
            Err(e) => files_tags(files@.map_values(|f: Vec<u8>| f@), files@.len() as int) == Err::<Set<Seq<char>>, ErrV>(err_view(e)),
        },
{
    let ghost fv = files@.map_values(|f: Vec<u8>| f@);
    let mut out: Vec<String> = Vec::new();
    assert(text_set(out@) =~= Set::empty());
    let mut i: usize = 0;
    while i < files.len()
        invariant
            i <= files@.len(),
            fv == files@.map_values(|f: Vec<u8>| f@),
            files_tags(fv, i as int) == Ok::<Set<Seq<char>>, ErrV>(text_set(out@)),
        decreases files@.len() - i,
    {
        let ns = match parse_tree(files[i].as_slice()) {
            Ok(ns) => ns,
            Err(crate::tree::ParseError::MalformedSyntax { offset }) => {
                proof {
                    lemma_files_error_stays(fv, i + 1, fv.len() as int);
                }
                return Err(ProjectionError::MalformedSyntax { offset });
            },
        };
        let ghost nv = nodes_view(ns@);
        let ghost start = text_set(out@);
        let mut k: usize = 0;
        assert(start.union(Set::empty()) =~= start);
        while k < ns.len()
            invariant
                k <= ns@.len(),
                nv == nodes_view(ns@),
                text_set(out@) == start.union(potential_tags(nv, k as int)),
            decreases ns@.len() - k,
        {
            assert(nv[k as int] == node_view(ns@[k as int]));
            let ghost mid = text_set(out@);
            if let Value::Object(fs) = &ns[k].value {
                let ghost fsv = nodes_view(fs@);
                let mut j: usize = 0;
                assert(mid.union(Set::empty()) =~= mid);
                while j < fs.len()
                    invariant
                        j <= fs@.len(),
                        fsv == nodes_view(fs@),
                        text_set(out@) == mid.union(potential_tags_of_tree(fsv, j as int)),
                    decreases fs@.len() - j,
                {
                    assert(fsv[j as int] == node_view(fs@[j as int]));
                    let ghost inner = text_set(out@);
                    if key_is(fs[j].key.as_slice(), "potential") {
                        collect_tags(&fs[j].value, &mut out);
                        assert(mid.union(potential_tags_of_tree(fsv, j as int)).union(tags_in(fsv[j as int].value)) =~= mid.union(potential_tags_of_tree(fsv, j + 1)));
                    } else {
                        assert(mid.union(potential_tags_of_tree(fsv, j + 1)) =~= inner);
                    }
                    j = j + 1;
                }
                assert(start.union(potential_tags(nv, k as int)).union(potential_tags_of_tree(fsv, fsv.len() as int)) =~= start.union(potential_tags(nv, k + 1)));
            } else {
                assert(start.union(potential_tags(nv, k + 1)) =~= mid);
            }
            k = k + 1;
        }
        assert(files_tags(fv, i + 1) == Ok::<Set<Seq<char>>, ErrV>(text_set(out@)));
        i = i + 1;
    }
    Ok(out)
}

proof fn lemma_files_error_stays(files: Seq<Seq<u8>>, j: int, m: int)
    requires
        0 <= j <= m <= files.len(),
        files_tags(files, j) is Err,
    ensures
        files_tags(files, m) == files_tags(files, j),
    decreases m - j,
{
    if m > j {
        lemma_files_error_stays(files, j, m - 1);
    }
}

/// A mission whose `<id>_title` key has no localisation gets no title; the lookup
/// adds no error of its own.
pub proof fn lemma_missing_title_is_none(
    key: Seq<u8>,
    v: ValueV,
    loc: Option<Seq<(Seq<char>, Seq<char>)>>,
)
    requires
        lookup_in(loc, windows1252_text(key) + "_title"@) is None,
    ensures
        match mission_of(key, v, loc) {
            Ok(Some(m)) => m.title is None,
            _ => true,
        },
        (mission_of(key, v, loc) is Err) == (match v {
            ValueV::Object(ns) => mission_fields(ns, ns.len() as int, loc) is Err,
            _ => false,
        }),
{
}

proof fn lemma_mission_fields_failure(
    ns: Seq<NodeV>,
    k: int,
    l1: Option<Seq<(Seq<char>, Seq<char>)>>,
    l2: Option<Seq<(Seq<char>, Seq<char>)>>,
)
    ensures
        same_failure(mission_fields(ns, k, l1), mission_fields(ns, k, l2)),
    decreases k,
{
    if 0 < k <= ns.len() {
        lemma_mission_fields_failure(ns, k - 1, l1, l2);
        lemma_trigger_failure_ignores_localisation(ns[k - 1].value, l1, l2, 0);
        reveal(apply_mission);
    }
}

/// A localisation that is missing, or present, never decides whether a mission can be
/// read: projecting fails alike with any index or with none.
pub proof fn lemma_mission_failure_ignores_localisation(
    key: Seq<u8>,
    v: ValueV,
    loc: Option<Seq<(Seq<char>, Seq<char>)>>,
)
    ensures
        same_failure(mission_of(key, v, loc), mission_of(key, v, None)),
{
    if let ValueV::Object(ns) = v {
        lemma_mission_fields_failure(ns, ns.len() as int, loc, None);
    }
}

/// A mission file gives one tree per top-level statement, in file order, repeated keys
/// included; it is read whenever every statement is.
pub proof fn lemma_one_tree_per_statement(ns: Seq<NodeV>, k: int, loc: Option<Seq<(Seq<char>, Seq<char>)>>)
    requires
        0 <= k <= ns.len(),
    ensures
        (forall|i: int| 0 <= i < k ==> (#[trigger] tree_of(ns[i], loc)) is Ok) ==> trees_of(ns, k, loc) is Ok,
        trees_of(ns, k, loc) is Ok ==> {
            let rs = trees_of(ns, k, loc)->Ok_0;
            &&& rs.len() == k
            &&& forall|i: int| 0 <= i < k ==> tree_of(ns[i], loc) == Ok::<MissionTreeV, ErrV>(#[trigger] rs[i])
        },
    decreases k,
{
    if k > 0 {
        lemma_one_tree_per_statement(ns, k - 1, loc);
        if trees_of(ns, k, loc) is Ok {
            let rs = trees_of(ns, k, loc)->Ok_0;
            let prev = trees_of(ns, k - 1, loc)->Ok_0;
            assert(rs == prev.push(tree_of(ns[k - 1], loc)->Ok_0));
            assert forall|i: int| 0 <= i < k implies tree_of(ns[i], loc) == Ok::<MissionTreeV, ErrV>(#[trigger] rs[i]) by {
                if i < k - 1 {
                    assert(rs[i] == prev[i]);
                }
            }
        }
    }
}

} // verus!
