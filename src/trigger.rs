//! Boolean trigger trees and flat effect records, built from tree objects.
use vstd::prelude::*;
use vstd::string::StringSliceAdditionalSpecFns;
use crate::error::{ErrV, ProjectionError, err_view, within, within_key};
use crate::localisation::{LocalisationIndex, find_text, index_view, lookup_in};
use crate::scalar::{to_text, windows1252_text};
use crate::text::key_is;
use crate::tree::{Node, NodeV, Value, ValueV, node_text, node_view, nodes_view, value_view, write_node};

verus! {

/// Deepest nesting of `OR` / `AND` / `NOT` / `custom_trigger_tooltip` blocks that a
/// trigger may have.
pub const MAX_TRIGGER_DEPTH: usize = 32;

/// A trigger: leaf predicates, at most one child per combinator, and the text of every
/// statement that has no field of its own.
#[derive(Debug)]
pub struct Trigger {
    pub misc: Option<Vec<u8>>,
    pub or: Option<Box<Trigger>>,
    pub and: Option<Box<Trigger>>,
    pub not: Option<Box<Trigger>>,
    pub custom_tooltip: Option<Box<Trigger>>,
    pub tooltip: Option<String>,
    pub tooltip_desc: Option<String>,
    pub tag: Option<String>,
    pub was_tag: Option<String>,
    /// Kept for callers that fill it themselves: a `primary_culture` statement is no leaf
    /// predicate of its own and goes to `misc` with the other statements.
    pub primary_culture: Option<String>,
    pub religion: Option<String>,
    pub has_country_flag: Option<String>,
    pub dynasty: Option<String>,
}

/// The mathematical form of a [`Trigger`].
pub struct TriggerV {
    pub misc: Option<Seq<u8>>,
    pub or: Option<Box<TriggerV>>,
    pub and: Option<Box<TriggerV>>,
    pub not: Option<Box<TriggerV>>,
    pub custom_tooltip: Option<Box<TriggerV>>,
    pub tooltip: Option<Seq<char>>,
    pub tooltip_desc: Option<Seq<char>>,
    pub tag: Option<Seq<char>>,
    pub was_tag: Option<Seq<char>>,
    pub primary_culture: Option<Seq<char>>,
    pub religion: Option<Seq<char>>,
    pub has_country_flag: Option<Seq<char>>,
    pub dynasty: Option<Seq<char>>,
}

pub open spec fn text_view(s: Option<String>) -> Option<Seq<char>> {
    match s {
        Some(x) => Some(x@),
        None => None,
    }
}

pub open spec fn bytes_view(s: Option<Vec<u8>>) -> Option<Seq<u8>> {
    match s {
        Some(x) => Some(x@),
        None => None,
    }
}

pub open spec fn child_view(c: Option<Box<Trigger>>) -> Option<Box<TriggerV>>
    decreases c,
{
    match c {
        Some(b) => Some(Box::new(trigger_view(*b))),
        None => None,
    }
}

pub open spec fn trigger_view(t: Trigger) -> TriggerV
    decreases t,
{
    TriggerV {
        misc: bytes_view(t.misc),
        or: child_view(t.or),
        and: child_view(t.and),
        not: child_view(t.not),
        custom_tooltip: child_view(t.custom_tooltip),
        tooltip: text_view(t.tooltip),
        tooltip_desc: text_view(t.tooltip_desc),
        tag: text_view(t.tag),
        was_tag: text_view(t.was_tag),
        primary_culture: text_view(t.primary_culture),
        religion: text_view(t.religion),
        has_country_flag: text_view(t.has_country_flag),
        dynasty: text_view(t.dynasty),
    }
}

pub open spec fn empty_trigger() -> TriggerV {
    TriggerV {
        misc: None,
        or: None,
        and: None,
        not: None,
        custom_tooltip: None,
        tooltip: None,
        tooltip_desc: None,
        tag: None,
        was_tag: None,
        primary_culture: None,
        religion: None,
        has_country_flag: None,
        dynasty: None,
    }
}

pub open spec fn is_combinator(k: Seq<u8>) -> bool {
    k == "OR".spec_bytes() || k == "AND".spec_bytes() || k == "NOT".spec_bytes() || k
        == "custom_trigger_tooltip".spec_bytes()
}

pub open spec fn is_leaf_key(k: Seq<u8>) -> bool {
    k == "tag".spec_bytes() || k == "was_tag".spec_bytes() || k == "religion".spec_bytes() || k == "has_country_flag".spec_bytes() || k
        == "dynasty".spec_bytes()
}

pub open spec fn misc_text(m: Option<Seq<u8>>) -> Seq<u8> {
    match m {
        Some(x) => x,
        None => seq![],
    }
}

/// The trigger after one more statement `f`; `sub` is the trigger built from its value
/// when the key is a combinator.
pub open spec fn apply_trigger(
    t: TriggerV,
    f: NodeV,
    sub: Result<TriggerV, ErrV>,
    loc: Option<Seq<(Seq<char>, Seq<char>)>>,
) -> Result<TriggerV, ErrV> {
    let k = f.key;
    if is_combinator(k) {
        match sub {
            Err(e) => Err(within(k, e)),
            Ok(s) => {
                let c = Some(Box::new(s));
                if k == "OR".spec_bytes() {
                    Ok(TriggerV { or: c, ..t })
                } else if k == "AND".spec_bytes() {
                    Ok(TriggerV { and: c, ..t })
                } else if k == "NOT".spec_bytes() {
                    Ok(TriggerV { not: c, ..t })
                } else {
                    Ok(TriggerV { custom_tooltip: c, ..t })
                }
            },
        }
    } else if k == "tooltip".spec_bytes() {
        match f.value {
            ValueV::Scalar(w) => {
                let x = windows1252_text(w);
                Ok(TriggerV { tooltip: Some(x), tooltip_desc: lookup_in(loc, x), ..t })
            },
            _ => Ok(t),
        }
    } else if is_leaf_key(k) && !(f.value is Scalar) {
        Ok(t)
    } else if is_leaf_key(k) {
        let x = Some(windows1252_text(f.value->Scalar_0));
        if k == "tag".spec_bytes() {
            Ok(TriggerV { tag: x, ..t })
        } else if k == "was_tag".spec_bytes() {
            Ok(TriggerV { was_tag: x, ..t })
        } else if k == "religion".spec_bytes() {
            Ok(TriggerV { religion: x, ..t })
        } else if k == "has_country_flag".spec_bytes() {
            Ok(TriggerV { has_country_flag: x, ..t })
        } else {
            Ok(TriggerV { dynasty: x, ..t })
        }
    } else {
        Ok(TriggerV { misc: Some(misc_text(t.misc) + node_text(f)), ..t })
    }
}

/// The trigger that the first `k` statements of `ns` build at nesting `depth`.
pub open spec fn trigger_fields(
    ns: Seq<NodeV>,
    k: int,
    loc: Option<Seq<(Seq<char>, Seq<char>)>>,
    depth: nat,
) -> Result<TriggerV, ErrV>
    decreases ns, k,
{
    if k <= 0 || k > ns.len() {
        Ok(empty_trigger())
    } else {
        match trigger_fields(ns, k - 1, loc, depth) {
            Err(e) => Err(e),
            Ok(t) => {
                let f = ns[k - 1];
                let sub = if is_combinator(f.key) {
                    trigger_of(f.value, loc, depth + 1)
                } else {
                    Ok(empty_trigger())
                };
                apply_trigger(t, f, sub, loc)
            },
        }
    }
}

/// The trigger that a value builds at nesting `depth`: an object's statements in order,
/// nothing from any other value, an error past the cap.
pub open spec fn trigger_of(v: ValueV, loc: Option<Seq<(Seq<char>, Seq<char>)>>, depth: nat) -> Result<
    TriggerV,
    ErrV,
>
    decreases v, 0int,
{
    if depth > MAX_TRIGGER_DEPTH {
        Err(ErrV::TooDeep(seq![]))
    } else {
        match v {
            ValueV::Object(ns) => trigger_fields(ns, ns.len() as int, loc, depth),
            _ => Ok(empty_trigger()),
        }
    }
}

pub open spec fn trigger_result(r: Result<Trigger, ProjectionError>) -> Result<TriggerV, ErrV> {
    match r {
        Ok(t) => Ok(trigger_view(t)),
        Err(e) => Err(err_view(e)),
    }
}

impl Trigger {
    pub fn empty() -> (r: Trigger)
        ensures
            trigger_view(r) == empty_trigger(),
    {
        Trigger {
            misc: None,
            or: None,
            and: None,
            not: None,
            custom_tooltip: None,
            tooltip: None,
            tooltip_desc: None,
            tag: None,
            was_tag: None,
            primary_culture: None,
            religion: None,
            has_country_flag: None,
            dynasty: None,
        }
    }
}

fn is_combinator_key(k: &Vec<u8>) -> (r: bool)
    ensures
        r == is_combinator(k@),
{
    key_is(k.as_slice(), "OR") || key_is(k.as_slice(), "AND") || key_is(k.as_slice(), "NOT")
        || key_is(k.as_slice(), "custom_trigger_tooltip")
}

fn is_leaf(k: &Vec<u8>) -> (r: bool)
    ensures
        r == is_leaf_key(k@),
{
    key_is(k.as_slice(), "tag") || key_is(k.as_slice(), "was_tag") || key_is(k.as_slice(), "religion") || key_is(k.as_slice(), "has_country_flag")
        || key_is(k.as_slice(), "dynasty")
}

/// Appends the text of `f` to an optional buffer.
pub fn append_misc(m: Option<Vec<u8>>, f: &Node) -> (r: Vec<u8>)
    ensures
        r@ == misc_text(bytes_view(m)) + node_text(node_view(*f)),
{
    let mut buf = match m {
        Some(b) => b,
        None => Vec::new(),
    };
    write_node(&mut buf, f);
    buf
}

fn apply_trigger_field(
    t: Trigger,
    f: &Node,
    loc: Option<&LocalisationIndex>,
    depth: usize,
) -> (r: Result<Trigger, ProjectionError>)
    requires
        depth <= MAX_TRIGGER_DEPTH,
    ensures
        trigger_result(r) == apply_trigger(
            trigger_view(t),
            node_view(*f),
            if is_combinator(f.key@) {
                trigger_of(value_view(f.value), index_view(loc), depth as nat + 1)
            } else {
                Ok(empty_trigger())
            },
            index_view(loc),
        ),
    decreases *f, 2int,
{
    let mut t = t;
    let k = &f.key;
    if is_combinator_key(k) {
        let sub = match build_trigger(&f.value, loc, depth + 1) {
            Ok(s) => s,
            Err(e) => {
                return Err(within_key(k, e));
            },
        };
        let c = Some(Box::new(sub));
        if key_is(k.as_slice(), "OR") {
            t.or = c;
        } else if key_is(k.as_slice(), "AND") {
            t.and = c;
        } else if key_is(k.as_slice(), "NOT") {
            t.not = c;
        } else {
            t.custom_tooltip = c;
        }
        return Ok(t);
    }
    let is_tooltip = key_is(k.as_slice(), "tooltip");
    let leaf = is_leaf(k);
    if !is_tooltip && !leaf {
        let m = t.misc;
        t.misc = Some(append_misc(m, f));
        return Ok(t);
    }
    match &f.value {
        Value::Scalar(w) => {
            if is_tooltip {
                let x = to_text(w.as_slice());
                t.tooltip_desc = find_text(loc, &x);
                t.tooltip = Some(x);
                return Ok(t);
            }
            if leaf {
                let x = Some(to_text(w.as_slice()));
                if key_is(k.as_slice(), "tag") {
                    t.tag = x;
                } else if key_is(k.as_slice(), "was_tag") {
                    t.was_tag = x;
                } else if key_is(k.as_slice(), "religion") {
                    t.religion = x;
                } else if key_is(k.as_slice(), "has_country_flag") {
                    t.has_country_flag = x;
                } else {
                    t.dynasty = x;
                }
                return Ok(t);
            }
        },
        _ => {},
    }
    Ok(t)
}

/// Builds a trigger from the value of a trigger-typed statement.
pub fn build_trigger(v: &Value, loc: Option<&LocalisationIndex>, depth: usize) -> (r: Result<
    Trigger,
    ProjectionError,
>)
    ensures
        trigger_result(r) == trigger_of(value_view(*v), index_view(loc), depth as nat),
        depth > MAX_TRIGGER_DEPTH ==> r is Err,
    decreases *v, 0int,
{
    if depth > MAX_TRIGGER_DEPTH {
        let p: Vec<Vec<u8>> = Vec::new();
        assert(crate::error::path_view(p@) =~= seq![]);
        return Err(ProjectionError::TooDeep { key_path: p });
    }
    match v {
        Value::Object(ns) => build_trigger_fields(ns, loc, depth),
        _ => Ok(Trigger::empty()),
    }
}

proof fn lemma_trigger_error_stays(
    ns: Seq<NodeV>,
    j: int,
    m: int,
    loc: Option<Seq<(Seq<char>, Seq<char>)>>,
    depth: nat,
)
    requires
        0 <= j <= m <= ns.len(),
        trigger_fields(ns, j, loc, depth) is Err,
    ensures
        trigger_fields(ns, m, loc, depth) == trigger_fields(ns, j, loc, depth),
    decreases m - j,
{
    if m > j {
        lemma_trigger_error_stays(ns, j, m - 1, loc, depth);
    }
}

fn build_trigger_fields(ns: &Vec<Node>, loc: Option<&LocalisationIndex>, depth: usize) -> (r: Result<
    Trigger,
    ProjectionError,
>)
    requires
        depth <= MAX_TRIGGER_DEPTH,
    ensures
        trigger_result(r) == trigger_fields(
            nodes_view(ns@),
            ns@.len() as int,
            index_view(loc),
            depth as nat,
        ),
    decreases *ns, 1int,
{
    let ghost nv = nodes_view(ns@);
    let mut t = Trigger::empty();
    let mut k: usize = 0;
    while k < ns.len()
        invariant
            k <= ns@.len(),
            depth <= MAX_TRIGGER_DEPTH,
            nv == nodes_view(ns@),
            trigger_fields(nv, k as int, index_view(loc), depth as nat) == Ok::<TriggerV, ErrV>(
                trigger_view(t),
            ),
        decreases ns@.len() - k,
    {
        assert(nv[k as int] == node_view(ns@[k as int]));
        t = match apply_trigger_field(t, &ns[k], loc, depth) {
            Ok(t2) => t2,
            Err(e) => {
                proof {
                    lemma_trigger_error_stays(nv, k + 1, nv.len() as int, index_view(loc), depth as nat);
                }
                return Err(e);
            },
        };
        k = k + 1;
    }
    Ok(t)
}

proof fn lemma_leaf_keys_distinct()
    ensures
        "tag".spec_bytes() != "was_tag".spec_bytes(),
        "tag".spec_bytes() != "religion".spec_bytes(),
        "tag".spec_bytes() != "has_country_flag".spec_bytes(),
        "tag".spec_bytes() != "dynasty".spec_bytes(),
        "tag".spec_bytes() != "OR".spec_bytes(),
        "tag".spec_bytes() != "AND".spec_bytes(),
        "tag".spec_bytes() != "NOT".spec_bytes(),
        "tag".spec_bytes() != "custom_trigger_tooltip".spec_bytes(),
        "tag".spec_bytes() != "tooltip".spec_bytes(),
        "was_tag".spec_bytes() != "religion".spec_bytes(),
        "was_tag".spec_bytes() != "has_country_flag".spec_bytes(),
        "was_tag".spec_bytes() != "dynasty".spec_bytes(),
        "was_tag".spec_bytes() != "OR".spec_bytes(),
        "was_tag".spec_bytes() != "AND".spec_bytes(),
        "was_tag".spec_bytes() != "NOT".spec_bytes(),
        "was_tag".spec_bytes() != "custom_trigger_tooltip".spec_bytes(),
        "was_tag".spec_bytes() != "tooltip".spec_bytes(),
        "religion".spec_bytes() != "has_country_flag".spec_bytes(),
        "religion".spec_bytes() != "dynasty".spec_bytes(),
        "religion".spec_bytes() != "OR".spec_bytes(),
        "religion".spec_bytes() != "AND".spec_bytes(),
        "religion".spec_bytes() != "NOT".spec_bytes(),
        "religion".spec_bytes() != "custom_trigger_tooltip".spec_bytes(),
        "religion".spec_bytes() != "tooltip".spec_bytes(),
        "has_country_flag".spec_bytes() != "dynasty".spec_bytes(),
        "has_country_flag".spec_bytes() != "OR".spec_bytes(),
        "has_country_flag".spec_bytes() != "AND".spec_bytes(),
        "has_country_flag".spec_bytes() != "NOT".spec_bytes(),
        "has_country_flag".spec_bytes() != "custom_trigger_tooltip".spec_bytes(),
        "has_country_flag".spec_bytes() != "tooltip".spec_bytes(),
        "dynasty".spec_bytes() != "OR".spec_bytes(),
        "dynasty".spec_bytes() != "AND".spec_bytes(),
        "dynasty".spec_bytes() != "NOT".spec_bytes(),
        "dynasty".spec_bytes() != "custom_trigger_tooltip".spec_bytes(),
        "dynasty".spec_bytes() != "tooltip".spec_bytes(),
{
    reveal_strlit("tag");
    vstd::string::is_ascii_spec_bytes("tag");
    assert(vstd::string::is_ascii("tag"));
    reveal_strlit("was_tag");
    vstd::string::is_ascii_spec_bytes("was_tag");
    assert(vstd::string::is_ascii("was_tag"));
    reveal_strlit("religion");
    vstd::string::is_ascii_spec_bytes("religion");
    assert(vstd::string::is_ascii("religion"));
    reveal_strlit("has_country_flag");
    vstd::string::is_ascii_spec_bytes("has_country_flag");
    assert(vstd::string::is_ascii("has_country_flag"));
    reveal_strlit("dynasty");
    vstd::string::is_ascii_spec_bytes("dynasty");
    assert(vstd::string::is_ascii("dynasty"));
    reveal_strlit("OR");
    vstd::string::is_ascii_spec_bytes("OR");
    assert(vstd::string::is_ascii("OR"));
    reveal_strlit("AND");
    vstd::string::is_ascii_spec_bytes("AND");
    assert(vstd::string::is_ascii("AND"));
    reveal_strlit("NOT");
    vstd::string::is_ascii_spec_bytes("NOT");
    assert(vstd::string::is_ascii("NOT"));
    reveal_strlit("custom_trigger_tooltip");
    vstd::string::is_ascii_spec_bytes("custom_trigger_tooltip");
    assert(vstd::string::is_ascii("custom_trigger_tooltip"));
    reveal_strlit("tooltip");
    vstd::string::is_ascii_spec_bytes("tooltip");
    assert(vstd::string::is_ascii("tooltip"));
    assert("tag".spec_bytes().len() != "was_tag".spec_bytes().len());
    assert("tag".spec_bytes().len() != "religion".spec_bytes().len());
    assert("tag".spec_bytes().len() != "has_country_flag".spec_bytes().len());
    assert("tag".spec_bytes().len() != "dynasty".spec_bytes().len());
    assert("tag".spec_bytes().len() != "OR".spec_bytes().len());
    assert("tag".spec_bytes()[0] != "AND".spec_bytes()[0]);
    assert("tag".spec_bytes()[0] != "NOT".spec_bytes()[0]);
    assert("tag".spec_bytes().len() != "custom_trigger_tooltip".spec_bytes().len());
    assert("tag".spec_bytes().len() != "tooltip".spec_bytes().len());
    assert("was_tag".spec_bytes().len() != "religion".spec_bytes().len());
    assert("was_tag".spec_bytes().len() != "has_country_flag".spec_bytes().len());
    assert("was_tag".spec_bytes()[0] != "dynasty".spec_bytes()[0]);
    assert("was_tag".spec_bytes().len() != "OR".spec_bytes().len());
    assert("was_tag".spec_bytes().len() != "AND".spec_bytes().len());
    assert("was_tag".spec_bytes().len() != "NOT".spec_bytes().len());
    assert("was_tag".spec_bytes().len() != "custom_trigger_tooltip".spec_bytes().len());
    assert("was_tag".spec_bytes()[0] != "tooltip".spec_bytes()[0]);
    assert("religion".spec_bytes().len() != "has_country_flag".spec_bytes().len());
    assert("religion".spec_bytes().len() != "dynasty".spec_bytes().len());
    assert("religion".spec_bytes().len() != "OR".spec_bytes().len());
    assert("religion".spec_bytes().len() != "AND".spec_bytes().len());
    assert("religion".spec_bytes().len() != "NOT".spec_bytes().len());
    assert("religion".spec_bytes().len() != "custom_trigger_tooltip".spec_bytes().len());
    assert("religion".spec_bytes().len() != "tooltip".spec_bytes().len());
    assert("has_country_flag".spec_bytes().len() != "dynasty".spec_bytes().len());
    assert("has_country_flag".spec_bytes().len() != "OR".spec_bytes().len());
    assert("has_country_flag".spec_bytes().len() != "AND".spec_bytes().len());
    assert("has_country_flag".spec_bytes().len() != "NOT".spec_bytes().len());
    assert("has_country_flag".spec_bytes().len() != "custom_trigger_tooltip".spec_bytes().len());
    assert("has_country_flag".spec_bytes().len() != "tooltip".spec_bytes().len());
    assert("dynasty".spec_bytes().len() != "OR".spec_bytes().len());
    assert("dynasty".spec_bytes().len() != "AND".spec_bytes().len());
    assert("dynasty".spec_bytes().len() != "NOT".spec_bytes().len());
    assert("dynasty".spec_bytes().len() != "custom_trigger_tooltip".spec_bytes().len());
    assert("dynasty".spec_bytes()[0] != "tooltip".spec_bytes()[0]);
}

/// The field that a leaf key fills.
pub open spec fn leaf_value(t: TriggerV, k: Seq<u8>) -> Option<Seq<char>> {
    if k == "tag".spec_bytes() {
        t.tag
    } else if k == "was_tag".spec_bytes() {
        t.was_tag
    } else if k == "religion".spec_bytes() {
        t.religion
    } else if k == "has_country_flag".spec_bytes() {
        t.has_country_flag
    } else {
        t.dynasty
    }
}

proof fn lemma_trigger_ok_prefix(
    ns: Seq<NodeV>,
    k: int,
    m: int,
    loc: Option<Seq<(Seq<char>, Seq<char>)>>,
    depth: nat,
)
    requires
        0 <= k <= m <= ns.len(),
        trigger_fields(ns, m, loc, depth) is Ok,
    ensures
        trigger_fields(ns, k, loc, depth) is Ok,
{
    if trigger_fields(ns, k, loc, depth) is Err {
        lemma_trigger_error_stays(ns, k, m, loc, depth);
    }
}

proof fn lemma_leaf_kept(
    ns: Seq<NodeV>,
    i: int,
    k: int,
    loc: Option<Seq<(Seq<char>, Seq<char>)>>,
    depth: nat,
)
    requires
        0 <= i < k <= ns.len(),
        is_leaf_key(ns[i].key),
        ns[i].value is Scalar,
        forall|j: int| i < j < ns.len() ==> (#[trigger] ns[j]).key != ns[i].key,
        trigger_fields(ns, ns.len() as int, loc, depth) is Ok,
    ensures
        trigger_fields(ns, k, loc, depth) is Ok,
        leaf_value(trigger_fields(ns, k, loc, depth)->Ok_0, ns[i].key) == Some(
            windows1252_text(ns[i].value->Scalar_0),
        ),
    decreases k,
{
    lemma_leaf_keys_distinct();
    lemma_trigger_ok_prefix(ns, k, ns.len() as int, loc, depth);
    lemma_trigger_ok_prefix(ns, k - 1, ns.len() as int, loc, depth);
    if k > i + 1 {
        lemma_leaf_kept(ns, i, k - 1, loc, depth);
        assert(ns[k - 1].key != ns[i].key);
    }
}

/// When a trigger block gives a leaf predicate (`tag`, `was_tag`, `religion`,
/// `has_country_flag`, `dynasty`) more than once, the last statement for it decides:
/// later statements with other keys leave it as it is.
pub proof fn lemma_last_leaf_wins(
    ns: Seq<NodeV>,
    i: int,
    loc: Option<Seq<(Seq<char>, Seq<char>)>>,
    depth: nat,
)
    requires
        0 <= i < ns.len(),
        is_leaf_key(ns[i].key),
        ns[i].value is Scalar,
        forall|j: int| i < j < ns.len() ==> (#[trigger] ns[j]).key != ns[i].key,
    ensures
        match trigger_fields(ns, ns.len() as int, loc, depth) {
            Ok(t) => leaf_value(t, ns[i].key) == Some(windows1252_text(ns[i].value->Scalar_0)),
            Err(_) => true,
        },
{
    if trigger_fields(ns, ns.len() as int, loc, depth) is Ok {
        lemma_leaf_kept(ns, i, ns.len() as int, loc, depth);
    }
}

/// Blocks under the keys `keys`, outermost first, each holding only the next, around
/// `inner`.
pub open spec fn nested_blocks(keys: Seq<Seq<u8>>, inner: ValueV) -> ValueV
    decreases keys.len(),
{
    if keys.len() == 0 {
        inner
    } else {
        ValueV::Object(
            seq![NodeV { key: keys[0], op: crate::tree::Operator::Equal, value: nested_blocks(keys.drop_first(), inner) }],
        )
    }
}

/// Combinator blocks (`OR`, `AND`, `NOT`, `custom_trigger_tooltip`) nested past the cap
/// give the depth error, whatever they hold and whatever the localisation.
pub proof fn lemma_depth_cap(
    keys: Seq<Seq<u8>>,
    inner: ValueV,
    loc: Option<Seq<(Seq<char>, Seq<char>)>>,
    depth: nat,
)
    requires
        forall|i: int| 0 <= i < keys.len() ==> is_combinator(#[trigger] keys[i]),
        depth + keys.len() > MAX_TRIGGER_DEPTH,
    ensures
        trigger_of(nested_blocks(keys, inner), loc, depth) matches Err(ErrV::TooDeep(_)),
    decreases keys.len(),
{
    if depth <= MAX_TRIGGER_DEPTH {
        let rest = keys.drop_first();
        assert forall|i: int| 0 <= i < rest.len() implies is_combinator(#[trigger] rest[i]) by {
            assert(rest[i] == keys[i + 1]);
        }
        assert(is_combinator(keys[0]));
        lemma_depth_cap(rest, inner, loc, depth + 1);
        let ns = seq![NodeV { key: keys[0], op: crate::tree::Operator::Equal, value: nested_blocks(rest, inner) }];
        assert(nested_blocks(keys, inner) == ValueV::Object(ns));
        assert(trigger_fields(ns, 0, loc, depth) == Ok::<TriggerV, ErrV>(empty_trigger()));
    }
}

/// Two outcomes that fail alike: both with the same error, or neither.
pub open spec fn same_failure<A, B>(r1: Result<A, ErrV>, r2: Result<B, ErrV>) -> bool {
    match (r1, r2) {
        (Err(a), Err(b)) => a == b,
        (Ok(_), Ok(_)) => true,
        _ => false,
    }
}

/// Whether a trigger fails, and how, does not depend on the localisation index.
pub proof fn lemma_trigger_failure_ignores_localisation(
    v: ValueV,
    l1: Option<Seq<(Seq<char>, Seq<char>)>>,
    l2: Option<Seq<(Seq<char>, Seq<char>)>>,
    depth: nat,
)
    ensures
        same_failure(trigger_of(v, l1, depth), trigger_of(v, l2, depth)),
    decreases v, 0int,
{
    if depth <= MAX_TRIGGER_DEPTH {
        if let ValueV::Object(ns) = v {
            lemma_trigger_fields_failure(ns, ns.len() as int, l1, l2, depth);
        }
    }
}

proof fn lemma_trigger_fields_failure(
    ns: Seq<NodeV>,
    k: int,
    l1: Option<Seq<(Seq<char>, Seq<char>)>>,
    l2: Option<Seq<(Seq<char>, Seq<char>)>>,
    depth: nat,
)
    ensures
        same_failure(trigger_fields(ns, k, l1, depth), trigger_fields(ns, k, l2, depth)),
    decreases ns, k,
{
    if 0 < k <= ns.len() {
        lemma_trigger_fields_failure(ns, k - 1, l1, l2, depth);
        let f = ns[k - 1];
        if is_combinator(f.key) {
            lemma_trigger_failure_ignores_localisation(f.value, l1, l2, depth + 1);
        }
    }
}

} // verus!
