//! Religious groups and their religions, schools, icons and papacy.
use vstd::prelude::*;
use vstd::string::StringSliceAdditionalSpecFns;
use crate::error::{ErrV, ProjectionError, err_view, undecodable, unmodeled, within, within_key};
use crate::modifiers::{catalog, lookup};
use crate::scalar::{ScalarDecodeFailure, ScalarKind, to_text, to_u64, unsigned_text, windows1252_text};
use crate::text::key_is;
use crate::tree::{Node, NodeV, Value, ValueV, node_view, nodes_view, parse_tree, parsed, value_view};
use crate::trigger::text_view;

verus! {

/// A mapping from modifier identifiers to their raw, undecoded values: one pair per
/// identifier, in the order identifiers first appear, with the last value given.
pub type RawModifiers = Vec<(Vec<u8>, Vec<u8>)>;

pub open spec fn raw_view(m: RawModifiers) -> Seq<(Seq<u8>, Seq<u8>)> {
    m@.map_values(|p: (Vec<u8>, Vec<u8>)| (p.0@, p.1@))
}

/// Index of the pair for `k`, or -1.
pub open spec fn key_index(ms: Seq<(Seq<u8>, Seq<u8>)>, k: Seq<u8>) -> int
    decreases ms.len(),
{
    if ms.len() == 0 {
        -1
    } else if ms.last().0 == k {
        ms.len() - 1
    } else {
        key_index(ms.drop_last(), k)
    }
}

/// The mapping with `k` set to `w`: its pair replaced where it has one, added otherwise.
pub open spec fn put(ms: Seq<(Seq<u8>, Seq<u8>)>, k: Seq<u8>, w: Seq<u8>) -> Seq<(Seq<u8>, Seq<u8>)> {
    let i = key_index(ms, k);
    if 0 <= i < ms.len() {
        ms.update(i, (k, w))
    } else {
        ms.push((k, w))
    }
}

/// The mapping `a` with every pair of `b` set in turn.
pub open spec fn merged(a: Seq<(Seq<u8>, Seq<u8>)>, b: Seq<(Seq<u8>, Seq<u8>)>) -> Seq<(Seq<u8>, Seq<u8>)>
    decreases b.len(),
{
    if b.len() == 0 {
        a
    } else {
        put(merged(a, b.drop_last()), b.last().0, b.last().1)
    }
}

fn put_modifier(ms: &mut RawModifiers, k: Vec<u8>, w: Vec<u8>)
    ensures
        raw_view(*final(ms)) == put(raw_view(*old(ms)), k@, w@),
{
    let ghost before = raw_view(*ms);
    let mut i = ms.len();
    assert(before.take(i as int) =~= before);
    while i > 0
        invariant
            i <= ms@.len(),
            before == raw_view(*ms),
            before == raw_view(*old(ms)),
            key_index(before, k@) == key_index(before.take(i as int), k@),
        decreases i,
    {
        assert(before.take(i as int).drop_last() =~= before.take(i - 1));
        if crate::text::bytes_eq(ms[i - 1].0.as_slice(), k.as_slice()) {
            let ghost kv = k@;
            let ghost wv = w@;
            assert(before[i - 1] == (ms@[i - 1].0@, ms@[i - 1].1@));
            assert(before.take(i as int).last() == before[i - 1]);
            assert(key_index(before, kv) == i - 1);
            ms[i - 1] = (k, w);
            assert(raw_view(*ms) =~= before.update(i - 1, (kv, wv)));
            return;
        }
        i = i - 1;
    }
    let ghost kv = k@;
    let ghost wv = w@;
    ms.push((k, w));
    assert(raw_view(*ms) =~= before.push((kv, wv)));
}

/// The catalogued modifiers among the first `k` statements; other keys are dropped.
pub open spec fn modifier_pairs(ns: Seq<NodeV>, k: int) -> Result<Seq<(Seq<u8>, Seq<u8>)>, ErrV>
    decreases k,
{
    if k <= 0 || k > ns.len() {
        Ok(seq![])
    } else {
        match modifier_pairs(ns, k - 1) {
            Err(e) => Err(e),
            Ok(ms) => {
                let f = ns[k - 1];
                if catalog(f.key) is Some {
                    match f.value {
                        ValueV::Scalar(w) => Ok(put(ms, f.key, w)),
                        _ => Err(ErrV::UnmodeledStructure(seq![f.key])),
                    }
                } else {
                    Ok(ms)
                }
            },
        }
    }
}

/// The catalogued modifiers of a value: those of an object, none of anything else.
pub open spec fn modifiers_of(v: ValueV) -> Result<Seq<(Seq<u8>, Seq<u8>)>, ErrV> {
    match v {
        ValueV::Object(ns) => modifier_pairs(ns, ns.len() as int),
        _ => Ok(seq![]),
    }
}

proof fn lemma_pairs_error_stays(ns: Seq<NodeV>, j: int, m: int)
    requires
        0 <= j <= m <= ns.len(),
        modifier_pairs(ns, j) is Err,
    ensures
        modifier_pairs(ns, m) == modifier_pairs(ns, j),
    decreases m - j,
{
    if m > j {
        lemma_pairs_error_stays(ns, j, m - 1);
    }
}

fn copy_bytes(b: &Vec<u8>) -> (r: Vec<u8>)
    ensures
        r@ == b@,
{
    crate::error::copy_key(b)
}

/// Collects the catalogued modifiers of a value.
pub fn collect_modifiers(v: &Value) -> (r: Result<RawModifiers, ProjectionError>)
    ensures
        match r {
            Ok(ms) => modifiers_of(value_view(*v)) == Ok::<Seq<(Seq<u8>, Seq<u8>)>, ErrV>(raw_view(ms)),
            Err(e) => modifiers_of(value_view(*v)) == Err::<Seq<(Seq<u8>, Seq<u8>)>, ErrV>(err_view(e)),
        },
{
    let mut out: RawModifiers = Vec::new();
    assert(raw_view(out) =~= seq![]);
    let ns = match v {
        Value::Object(ns) => ns,
        _ => {
            return Ok(out);
        },
    };
    let ghost nv = nodes_view(ns@);
    let mut k: usize = 0;
    while k < ns.len()
        invariant
            k <= ns@.len(),
            nv == nodes_view(ns@),
            value_view(*v) == ValueV::Object(nv),
            modifier_pairs(nv, k as int) == Ok::<Seq<(Seq<u8>, Seq<u8>)>, ErrV>(raw_view(out)),
        decreases ns@.len() - k,
    {
        assert(nv[k as int] == node_view(ns@[k as int]));
        let f = &ns[k];
        if lookup(f.key.as_slice()).is_some() {
            match &f.value {
                Value::Scalar(w) => {
                    let ghost before = raw_view(out);
                    put_modifier(&mut out, copy_bytes(&f.key), copy_bytes(w));
                },
                _ => {
                    proof {
                        lemma_pairs_error_stays(nv, k + 1, nv.len() as int);
                    }
                    return Err(unmodeled(&f.key));
                },
            }
        }
        k = k + 1;
    }
    Ok(out)
}

/// A religion of a group.
#[derive(Debug)]
pub struct Religion {
    pub id: String,
    pub color: Vec<u64>,
    pub icon: Option<u64>,
    pub country_modifiers: RawModifiers,
    pub country_as_secondary_modifiers: RawModifiers,
    pub province_modifiers: RawModifiers,
    pub aspects: Vec<String>,
    pub holy_sites: Vec<u64>,
    pub blessings: Vec<String>,
    pub orthodox_icons: Vec<OrthodoxIcons>,
    pub papacy: Option<Papacy>,
}

/// A religious school of a group.
#[derive(Debug)]
pub struct Schools {
    pub id: String,
    pub picture: Option<String>,
    pub country_modifiers: RawModifiers,
}

/// An icon that an orthodox religion can choose.
#[derive(Debug)]
pub struct OrthodoxIcons {
    pub id: String,
    pub country_modifiers: RawModifiers,
}

/// The papacy of a religion.
#[derive(Debug)]
pub struct Papacy {
    pub papal_tag: Option<String>,
    pub seat_of_papacy: Option<u64>,
    /// Concessions are recognised and not read: this stays empty.
    pub concessions: Vec<Concession>,
    pub curia_interaction: Vec<CuriaInteraction>,
}

/// A concession of the papacy, with its harsh and conciliatory modifiers.
#[derive(Debug)]
pub struct Concession {
    pub harsh: RawModifiers,
    pub concilatory: RawModifiers,
}

/// An interaction with the curia.
#[derive(Debug)]
pub struct CuriaInteraction {
    pub id: String,
    pub cost: Option<u64>,
}

/// A religious group with its religions.
#[derive(Debug)]
pub struct ReligiousGroup {
    pub id: String,
    pub center_of_religion: Option<u64>,
    pub religions: Vec<Religion>,
    pub harmonized_modifier: Option<String>,
    pub crusade_name: Option<String>,
    pub schools: Option<Vec<Schools>>,
}

pub struct IconV {
    pub id: Seq<char>,
    pub country_modifiers: Seq<(Seq<u8>, Seq<u8>)>,
}

pub struct SchoolV {
    pub id: Seq<char>,
    pub picture: Option<Seq<char>>,
    pub country_modifiers: Seq<(Seq<u8>, Seq<u8>)>,
}

pub struct CuriaV {
    pub id: Seq<char>,
    pub cost: Option<u64>,
}

pub struct PapacyV {
    pub papal_tag: Option<Seq<char>>,
    pub seat_of_papacy: Option<u64>,
    pub curia_interaction: Seq<CuriaV>,
}

pub struct ReligionV {
    pub id: Seq<char>,
    pub color: Seq<u64>,
    pub icon: Option<u64>,
    pub country_modifiers: Seq<(Seq<u8>, Seq<u8>)>,
    pub country_as_secondary_modifiers: Seq<(Seq<u8>, Seq<u8>)>,
    pub province_modifiers: Seq<(Seq<u8>, Seq<u8>)>,
    pub aspects: Seq<Seq<char>>,
    pub holy_sites: Seq<u64>,
    pub blessings: Seq<Seq<char>>,
    pub orthodox_icons: Seq<IconV>,
    pub papacy: Option<PapacyV>,
}

pub struct GroupV {
    pub id: Seq<char>,
    pub center_of_religion: Option<u64>,
    pub religions: Seq<ReligionV>,
    pub harmonized_modifier: Option<Seq<char>>,
    pub crusade_name: Option<Seq<char>>,
    pub schools: Option<Seq<SchoolV>>,
}

pub open spec fn icon_view(i: OrthodoxIcons) -> IconV {
    IconV { id: i.id@, country_modifiers: raw_view(i.country_modifiers) }
}

pub open spec fn school_view(s: Schools) -> SchoolV {
    SchoolV { id: s.id@, picture: text_view(s.picture), country_modifiers: raw_view(s.country_modifiers) }
}

pub open spec fn curia_view(c: CuriaInteraction) -> CuriaV {
    CuriaV { id: c.id@, cost: c.cost }
}

pub open spec fn papacy_view(p: Papacy) -> PapacyV {
    PapacyV {
        papal_tag: text_view(p.papal_tag),
        seat_of_papacy: p.seat_of_papacy,
        curia_interaction: p.curia_interaction@.map_values(|c: CuriaInteraction| curia_view(c)),
    }
}

pub open spec fn religion_view(r: Religion) -> ReligionV {
    ReligionV {
        id: r.id@,
        color: r.color@,
        icon: r.icon,
        country_modifiers: raw_view(r.country_modifiers),
        country_as_secondary_modifiers: raw_view(r.country_as_secondary_modifiers),
        province_modifiers: raw_view(r.province_modifiers),
        aspects: r.aspects@.map_values(|x: String| x@),
        holy_sites: r.holy_sites@,
        blessings: r.blessings@.map_values(|x: String| x@),
        orthodox_icons: r.orthodox_icons@.map_values(|x: OrthodoxIcons| icon_view(x)),
        papacy: match r.papacy {
            Some(p) => Some(papacy_view(p)),
            None => None,
        },
    }
}

pub open spec fn group_view(g: ReligiousGroup) -> GroupV {
    GroupV {
        id: g.id@,
        center_of_religion: g.center_of_religion,
        religions: g.religions@.map_values(|x: Religion| religion_view(x)),
        harmonized_modifier: text_view(g.harmonized_modifier),
        crusade_name: text_view(g.crusade_name),
        schools: match g.schools {
            Some(s) => Some(s@.map_values(|x: Schools| school_view(x))),
            None => None,
        },
    }
}

pub open spec fn unsigned_error() -> ErrV {
    ErrV::ScalarDecode(seq![], ScalarDecodeFailure::Expected(ScalarKind::Unsigned))
}

/// The numbers of the first `k` words, or a failure at the first that is none.
pub open spec fn u64_words(ws: Seq<Seq<u8>>, k: int) -> Result<Seq<u64>, ErrV>
    decreases k,
{
    if k <= 0 || k > ws.len() {
        Ok(seq![])
    } else {
        match u64_words(ws, k - 1) {
            Err(e) => Err(e),
            Ok(ns) => match unsigned_text(ws[k - 1]) {
                Some(n) => Ok(ns.push(n)),
                None => Err(unsigned_error()),
            },
        }
    }
}

/// The icons of an `orthodox_icons` block.
pub open spec fn icons_fields(ns: Seq<NodeV>, k: int) -> Result<Seq<IconV>, ErrV>
    decreases k,
{
    if k <= 0 || k > ns.len() {
        Ok(seq![])
    } else {
        match icons_fields(ns, k - 1) {
            Err(e) => Err(e),
            Ok(is) => match modifiers_of(ns[k - 1].value) {
                Err(e) => Err(within(ns[k - 1].key, e)),
                Ok(ms) => Ok(is.push(IconV { id: windows1252_text(ns[k - 1].key), country_modifiers: ms })),
            },
        }
    }
}

/// The picture of a school: set by each `picture`, unset by one that is not a scalar.
pub open spec fn picture_in(ns: Seq<NodeV>, k: int) -> Option<Seq<char>>
    decreases k,
{
    if k <= 0 || k > ns.len() {
        None
    } else if ns[k - 1].key == "picture".spec_bytes() {
        match ns[k - 1].value {
            ValueV::Scalar(w) => Some(windows1252_text(w)),
            _ => None,
        }
    } else {
        picture_in(ns, k - 1)
    }
}

pub open spec fn school_of(f: NodeV) -> Result<SchoolV, ErrV> {
    match modifiers_of(f.value) {
        Err(e) => Err(within(f.key, e)),
        Ok(ms) => Ok(
            SchoolV {
                id: windows1252_text(f.key),
                picture: match f.value {
                    ValueV::Object(ns) => picture_in(ns, ns.len() as int),
                    _ => None,
                },
                country_modifiers: ms,
            },
        ),
    }
}

/// The schools of a `religious_schools` block.
pub open spec fn schools_fields(ns: Seq<NodeV>, k: int) -> Result<Seq<SchoolV>, ErrV>
    decreases k,
{
    if k <= 0 || k > ns.len() {
        Ok(seq![])
    } else {
        match schools_fields(ns, k - 1) {
            Err(e) => Err(e),
            Ok(ss) => match school_of(ns[k - 1]) {
                Err(e) => Err(e),
                Ok(s) => Ok(ss.push(s)),
            },
        }
    }
}

/// A curia interaction's statements: a `cost`, and keys that are recognised and skipped.
pub open spec fn curia_fields(ns: Seq<NodeV>, k: int) -> Result<Option<u64>, ErrV>
    decreases k,
{
    if k <= 0 || k > ns.len() {
        Ok(None)
    } else {
        match curia_fields(ns, k - 1) {
            Err(e) => Err(e),
            Ok(c) => {
                let f = ns[k - 1];
                let k2 = f.key;
                if k2 == "cost".spec_bytes() {
                    match f.value {
                        ValueV::Scalar(w) => match unsigned_text(w) {
                            Some(n) => Ok(Some(n)),
                            None => Err(within(k2, unsigned_error())),
                        },
                        _ => Err(within(k2, unsigned_error())),
                    }
                } else if k2 == "potential".spec_bytes() || k2 == "allow".spec_bytes() || k2
                    == "effect".spec_bytes() || k2 == "ai_will_do".spec_bytes() {
                    Ok(c)
                } else {
                    Err(ErrV::UnmodeledStructure(seq![k2]))
                }
            },
        }
    }
}

pub open spec fn papacy_skipped(k: Seq<u8>) -> bool {
    k == "election_cost".spec_bytes() || k == "harsh".spec_bytes() || k == "neutral".spec_bytes()
        || k == "concilatory".spec_bytes() || k == "concessions".spec_bytes()
}

#[verifier::opaque]
pub open spec fn apply_papacy(p: PapacyV, f: NodeV) -> Result<PapacyV, ErrV> {
    let k = f.key;
    if k == "papal_tag".spec_bytes() {
        match f.value {
            ValueV::Scalar(w) => Ok(PapacyV { papal_tag: Some(windows1252_text(w)), ..p }),
            _ => Ok(p),
        }
    } else if k == "seat_of_papacy".spec_bytes() {
        match f.value {
            ValueV::Scalar(w) => match unsigned_text(w) {
                Some(n) => Ok(PapacyV { seat_of_papacy: Some(n), ..p }),
                None => Err(within(k, unsigned_error())),
            },
            _ => Err(within(k, unsigned_error())),
        }
    } else if papacy_skipped(k) {
        Ok(p)
    } else {
        match f.value {
            ValueV::Object(ns) => match curia_fields(ns, ns.len() as int) {
                Err(e) => Err(within(k, e)),
                Ok(c) => Ok(
                    PapacyV {
                        curia_interaction: p.curia_interaction.push(CuriaV { id: windows1252_text(k), cost: c }),
                        ..p
                    },
                ),
            },
            _ => Err(ErrV::UnmodeledStructure(seq![k])),
        }
    }
}

pub open spec fn empty_papacy() -> PapacyV {
    PapacyV { papal_tag: None, seat_of_papacy: None, curia_interaction: seq![] }
}

pub open spec fn papacy_fields(ns: Seq<NodeV>, k: int) -> Result<PapacyV, ErrV>
    decreases k,
{
    if k <= 0 || k > ns.len() {
        Ok(empty_papacy())
    } else {
        match papacy_fields(ns, k - 1) {
            Err(e) => Err(e),
            Ok(p) => apply_papacy(p, ns[k - 1]),
        }
    }
}

/// Keys of a religion that are recognised and skipped.
pub open spec fn religion_skipped(k: Seq<u8>) -> bool {
    k == "allowed_conversion".spec_bytes() ||
        k == "allow_female_defenders_of_the_faith".spec_bytes() ||
        k == "uses_church_power".spec_bytes() ||
        k == "uses_anglican_power".spec_bytes() ||
        k == "religious_reforms".spec_bytes() ||
        k == "personal_deity".spec_bytes() ||
        k == "hre_religion".spec_bytes() ||
        k == "on_convert".spec_bytes() ||
        k == "allowed_center_conversion".spec_bytes() ||
        k == "will_get_center".spec_bytes() ||
        k == "date".spec_bytes() ||
        k == "fetishist_cult".spec_bytes() ||
        k == "ancestors".spec_bytes() ||
        k == "heretic".spec_bytes() ||
        k == "uses_judaism_power".spec_bytes() ||
        k == "aspects_name".spec_bytes() ||
        k == "harmonized_modifier".spec_bytes() ||
        k == "crusade_name".spec_bytes() ||
        k == "uses_isolationism".spec_bytes() ||
        k == "reform_tooltip".spec_bytes() ||
        k == "celebrate".spec_bytes() ||
        k == "declare_war_in_regency".spec_bytes() ||
        k == "doom".spec_bytes() ||
        k == "hre_heretic_religion".spec_bytes() ||
        k == "gurus".spec_bytes() ||
        k == "uses_karma".spec_bytes() ||
        k == "uses_harmony".spec_bytes() ||
        k == "has_patriarchs".spec_bytes() ||
        k == "fervor".spec_bytes() ||
        k == "uses_hussite_power".spec_bytes() ||
        k == "can_have_secondary_religion".spec_bytes() ||
        k == "authority".spec_bytes() ||
        k == "misguided_heretic".spec_bytes()
}

pub open spec fn texts_of(v: ValueV) -> Option<Seq<Seq<char>>> {
    match v {
        ValueV::Array(ws) => Some(ws.map_values(|w: Seq<u8>| windows1252_text(w))),
        _ => None,
    }
}

#[verifier::opaque]
pub open spec fn religion_numbers(r: ReligionV, f: NodeV) -> Result<ReligionV, ErrV> {
    let k = f.key;
    if k == "icon".spec_bytes() {
        match f.value {
            ValueV::Scalar(w) => match unsigned_text(w) {
                Some(n) => Ok(ReligionV { icon: Some(n), ..r }),
                None => Err(within(k, unsigned_error())),
            },
            _ => Ok(r),
        }
    } else {
        match f.value {
            ValueV::Array(ws) => match u64_words(ws, ws.len() as int) {
                Err(e) => Err(within(k, e)),
                Ok(ns) => if k == "color".spec_bytes() {
                    Ok(ReligionV { color: r.color + ns, ..r })
                } else {
                    Ok(ReligionV { holy_sites: r.holy_sites + ns, ..r })
                },
            },
            _ => Ok(r),
        }
    }
}

#[verifier::opaque]
pub open spec fn religion_modifiers(r: ReligionV, f: NodeV) -> Result<ReligionV, ErrV> {
    let k = f.key;
    match modifiers_of(f.value) {
        Err(e) => Err(within(k, e)),
        Ok(ms) => if k == "country".spec_bytes() {
            Ok(ReligionV { country_modifiers: merged(r.country_modifiers, ms), ..r })
        } else if k == "country_as_secondary".spec_bytes() {
            Ok(ReligionV { country_as_secondary_modifiers: merged(r.country_as_secondary_modifiers, ms), ..r })
        } else {
            Ok(ReligionV { province_modifiers: merged(r.province_modifiers, ms), ..r })
        },
    }
}

#[verifier::opaque]
pub open spec fn religion_texts(r: ReligionV, f: NodeV) -> Result<ReligionV, ErrV> {
    match texts_of(f.value) {
        Some(ts) => if f.key == "aspects".spec_bytes() {
            Ok(ReligionV { aspects: r.aspects + ts, ..r })
        } else {
            Ok(ReligionV { blessings: r.blessings + ts, ..r })
        },
        None => Ok(r),
    }
}

#[verifier::opaque]
pub open spec fn religion_blocks(r: ReligionV, f: NodeV) -> Result<ReligionV, ErrV> {
    let k = f.key;
    if k == "papacy".spec_bytes() {
        match f.value {
            ValueV::Object(ns) => match papacy_fields(ns, ns.len() as int) {
                Err(e) => Err(within(k, e)),
                Ok(p) => Ok(ReligionV { papacy: Some(p), ..r }),
            },
            _ => Ok(r),
        }
    } else {
        match f.value {
            ValueV::Object(ns) => match icons_fields(ns, ns.len() as int) {
                Err(e) => Err(within(k, e)),
                Ok(is) => Ok(ReligionV { orthodox_icons: r.orthodox_icons + is, ..r }),
            },
            _ => Ok(r),
        }
    }
}

/// A religion after one more statement.
#[verifier::opaque]
pub open spec fn apply_religion(r: ReligionV, f: NodeV) -> Result<ReligionV, ErrV> {
    let k = f.key;
    if k == "icon".spec_bytes() || k == "color".spec_bytes() || k == "holy_sites".spec_bytes() {
        religion_numbers(r, f)
    } else if k == "country".spec_bytes() || k == "country_as_secondary".spec_bytes() || k
        == "province".spec_bytes() {
        religion_modifiers(r, f)
    } else if k == "aspects".spec_bytes() || k == "blessings".spec_bytes() {
        religion_texts(r, f)
    } else if k == "papacy".spec_bytes() || k == "orthodox_icons".spec_bytes() {
        religion_blocks(r, f)
    } else if religion_skipped(k) {
        Ok(r)
    } else {
        Err(ErrV::UnmodeledStructure(seq![k]))
    }
}

pub open spec fn empty_religion(id: Seq<char>) -> ReligionV {
    ReligionV {
        id,
        color: seq![],
        icon: None,
        country_modifiers: seq![],
        country_as_secondary_modifiers: seq![],
        province_modifiers: seq![],
        aspects: seq![],
        holy_sites: seq![],
        blessings: seq![],
        orthodox_icons: seq![],
        papacy: None,
    }
}

pub open spec fn religion_fields(ns: Seq<NodeV>, k: int, id: Seq<char>) -> Result<ReligionV, ErrV>
    decreases k,
{
    if k <= 0 || k > ns.len() {
        Ok(empty_religion(id))
    } else {
        match religion_fields(ns, k - 1, id) {
            Err(e) => Err(e),
            Ok(r) => apply_religion(r, ns[k - 1]),
        }
    }
}

/// The religion of the statement `f` in a group.
pub open spec fn religion_of(f: NodeV) -> Result<ReligionV, ErrV> {
    let id = windows1252_text(f.key);
    match f.value {
        ValueV::Object(ns) => match religion_fields(ns, ns.len() as int, id) {
            Err(e) => Err(within(f.key, e)),
            Ok(r) => Ok(r),
        },
        _ => Ok(empty_religion(id)),
    }
}

/// Keys of a group that are recognised and skipped.
pub open spec fn group_skipped(k: Seq<u8>) -> bool {
    k == "can_form_personal_unions".spec_bytes() ||
        k == "defender_of_faith".spec_bytes() ||
        k == "flags_with_emblem_percentage".spec_bytes() ||
        k == "flag_emblem_index_range".spec_bytes() ||
        k == "ai_will_propagate_through_trade".spec_bytes()
}

#[verifier::opaque]
pub open spec fn apply_group(g: GroupV, f: NodeV) -> Result<GroupV, ErrV> {
    let k = f.key;
    if group_skipped(k) {
        Ok(g)
    } else if k == "center_of_religion".spec_bytes() {
        match f.value {
            ValueV::Scalar(w) => match unsigned_text(w) {
                Some(n) => Ok(GroupV { center_of_religion: Some(n), ..g }),
                None => Ok(g),
            },
            _ => Ok(g),
        }
    } else if k == "religious_schools".spec_bytes() {
        match f.value {
            ValueV::Object(ns) => match schools_fields(ns, ns.len() as int) {
                Err(e) => Err(within(k, e)),
                Ok(ss) => Ok(GroupV { schools: Some(ss), ..g }),
            },
            _ => Ok(GroupV { schools: Some(seq![]), ..g }),
        }
    } else if k == "crusade_name".spec_bytes() {
        match f.value {
            ValueV::Scalar(w) => Ok(GroupV { crusade_name: Some(windows1252_text(w)), ..g }),
            _ => Ok(g),
        }
    } else if k == "harmonized_modifier".spec_bytes() {
        match f.value {
            ValueV::Scalar(w) => Ok(GroupV { harmonized_modifier: Some(windows1252_text(w)), ..g }),
            _ => Ok(g),
        }
    } else {
        match religion_of(f) {
            Err(e) => Err(e),
            Ok(r) => Ok(GroupV { religions: g.religions.push(r), ..g }),
        }
    }
}

pub open spec fn empty_group(id: Seq<char>) -> GroupV {
    GroupV {
        id,
        center_of_religion: None,
        religions: seq![],
        harmonized_modifier: None,
        crusade_name: None,
        schools: None,
    }
}

pub open spec fn group_fields(ns: Seq<NodeV>, k: int, id: Seq<char>) -> Result<GroupV, ErrV>
    decreases k,
{
    if k <= 0 || k > ns.len() {
        Ok(empty_group(id))
    } else {
        match group_fields(ns, k - 1, id) {
            Err(e) => Err(e),
            Ok(g) => apply_group(g, ns[k - 1]),
        }
    }
}

/// The group of one top-level statement.
pub open spec fn group_of(f: NodeV) -> Result<GroupV, ErrV> {
    let id = windows1252_text(f.key);
    match f.value {
        ValueV::Object(ns) => match group_fields(ns, ns.len() as int, id) {
            Err(e) => Err(within(f.key, e)),
            Ok(g) => Ok(g),
        },
        _ => Ok(empty_group(id)),
    }
}

pub open spec fn groups_of(ns: Seq<NodeV>, k: int) -> Result<Seq<GroupV>, ErrV>
    decreases k,
{
    if k <= 0 || k > ns.len() {
        Ok(seq![])
    } else {
        match groups_of(ns, k - 1) {
            Err(e) => Err(e),
            Ok(gs) => match group_of(ns[k - 1]) {
                Err(e) => Err(e),
                Ok(g) => Ok(gs.push(g)),
            },
        }
    }
}

/// What a religions file gives: one group per top-level statement.
pub open spec fn religion_file(b: Seq<u8>) -> Result<Seq<GroupV>, ErrV> {
    match parsed(b) {
        Err(o) => Err(ErrV::MalformedSyntax(o)),
        Ok(ns) => groups_of(ns, ns.len() as int),
    }
}

proof fn lemma_u64_error_stays(ns: Seq<Seq<u8>>, j: int, m: int)
    requires
        0 <= j <= m <= ns.len(),
        u64_words(ns, j) is Err,
    ensures
        u64_words(ns, m) == u64_words(ns, j),
    decreases m - j,
{
    if m > j {
        lemma_u64_error_stays(ns, j, m - 1);
    }
}

proof fn lemma_icons_error_stays(ns: Seq<NodeV>, j: int, m: int)
    requires
        0 <= j <= m <= ns.len(),
        icons_fields(ns, j) is Err,
    ensures
        icons_fields(ns, m) == icons_fields(ns, j),
    decreases m - j,
{
    if m > j {
        lemma_icons_error_stays(ns, j, m - 1);
    }
}

proof fn lemma_schools_error_stays(ns: Seq<NodeV>, j: int, m: int)
    requires
        0 <= j <= m <= ns.len(),
        schools_fields(ns, j) is Err,
    ensures
        schools_fields(ns, m) == schools_fields(ns, j),
    decreases m - j,
{
    if m > j {
        lemma_schools_error_stays(ns, j, m - 1);
    }
}

proof fn lemma_curia_error_stays(ns: Seq<NodeV>, j: int, m: int)
    requires
        0 <= j <= m <= ns.len(),
        curia_fields(ns, j) is Err,
    ensures
        curia_fields(ns, m) == curia_fields(ns, j),
    decreases m - j,
{
    if m > j {
        lemma_curia_error_stays(ns, j, m - 1);
    }
}

proof fn lemma_papacy_error_stays(ns: Seq<NodeV>, j: int, m: int)
    requires
        0 <= j <= m <= ns.len(),
        papacy_fields(ns, j) is Err,
    ensures
        papacy_fields(ns, m) == papacy_fields(ns, j),
    decreases m - j,
{
    if m > j {
        lemma_papacy_error_stays(ns, j, m - 1);
    }
}

proof fn lemma_religion_error_stays(ns: Seq<NodeV>, j: int, m: int, id: Seq<char>)
    requires
        0 <= j <= m <= ns.len(),
        religion_fields(ns, j, id) is Err,
    ensures
        religion_fields(ns, m, id) == religion_fields(ns, j, id),
    decreases m - j,
{
    if m > j {
        lemma_religion_error_stays(ns, j, m - 1, id);
    }
}

proof fn lemma_group_error_stays(ns: Seq<NodeV>, j: int, m: int, id: Seq<char>)
    requires
        0 <= j <= m <= ns.len(),
        group_fields(ns, j, id) is Err,
    ensures
        group_fields(ns, m, id) == group_fields(ns, j, id),
    decreases m - j,
{
    if m > j {
        lemma_group_error_stays(ns, j, m - 1, id);
    }
}

proof fn lemma_groups_error_stays(ns: Seq<NodeV>, j: int, m: int)
    requires
        0 <= j <= m <= ns.len(),
        groups_of(ns, j) is Err,
    ensures
        groups_of(ns, m) == groups_of(ns, j),
    decreases m - j,
{
    if m > j {
        lemma_groups_error_stays(ns, j, m - 1);
    }
}

fn unsigned_failure() -> (r: ProjectionError)
    ensures
        err_view(r) == unsigned_error(),
{
    let p: Vec<Vec<u8>> = Vec::new();
    assert(crate::error::path_view(p@) =~= seq![]);
    ProjectionError::ScalarDecode { key_path: p, failure: ScalarDecodeFailure::Expected(ScalarKind::Unsigned) }
}

fn read_u64_words(ws: &Vec<Vec<u8>>, out: &mut Vec<u64>) -> (r: Result<(), ProjectionError>)
    ensures
        match r {
            Ok(_) => u64_words(ws@.map_values(|w: Vec<u8>| w@), ws@.len() as int) == Ok::<Seq<u64>, ErrV>(
                final(out)@.subrange(old(out)@.len() as int, final(out)@.len() as int),
            ) && final(out)@.len() >= old(out)@.len() && final(out)@.subrange(0, old(out)@.len() as int) == old(out)@,
            Err(e) => u64_words(ws@.map_values(|w: Vec<u8>| w@), ws@.len() as int) == Err::<Seq<u64>, ErrV>(err_view(e)),
        },
{
    let ghost wv = ws@.map_values(|w: Vec<u8>| w@);
    let ghost start = out@;
    let mut k: usize = 0;
    assert(out@.subrange(start.len() as int, out@.len() as int) =~= seq![]);
    while k < ws.len()
        invariant
            k <= ws@.len(),
            wv == ws@.map_values(|w: Vec<u8>| w@),
            out@.len() >= start.len(),
            out@.subrange(0, start.len() as int) == start,
            u64_words(wv, k as int) == Ok::<Seq<u64>, ErrV>(out@.subrange(start.len() as int, out@.len() as int)),
        decreases ws@.len() - k,
    {
        match to_u64(ws[k].as_slice()) {
            Ok(n) => {
                let ghost before = out@;
                out.push(n);
                assert(out@.subrange(start.len() as int, out@.len() as int) =~= before.subrange(
                    start.len() as int,
                    before.len() as int,
                ).push(n));
                assert(out@.subrange(0, start.len() as int) =~= before.subrange(0, start.len() as int));
            },
            Err(_) => {
                proof {
                    lemma_u64_error_stays(wv, k + 1, wv.len() as int);
                }
                return Err(unsigned_failure());
            },
        }
        k = k + 1;
    }
    Ok(())
}

fn read_icons(ns: &Vec<Node>, out: &mut Vec<OrthodoxIcons>) -> (r: Result<(), ProjectionError>)
    ensures
        match r {
            Ok(_) => icons_fields(nodes_view(ns@), ns@.len() as int) == Ok::<Seq<IconV>, ErrV>(
                final(out)@.map_values(|x: OrthodoxIcons| icon_view(x)).subrange(old(out)@.len() as int, final(out)@.len() as int),
            ) && final(out)@.len() >= old(out)@.len() && final(out)@.subrange(0, old(out)@.len() as int) == old(out)@,
            Err(e) => icons_fields(nodes_view(ns@), ns@.len() as int) == Err::<Seq<IconV>, ErrV>(err_view(e)),
        },
{
    let ghost nv = nodes_view(ns@);
    let ghost start = out@;
    let mut k: usize = 0;
    assert(out@.map_values(|x: OrthodoxIcons| icon_view(x)).subrange(start.len() as int, out@.len() as int) =~= seq![]);
    while k < ns.len()
        invariant
            k <= ns@.len(),
            nv == nodes_view(ns@),
            out@.len() >= start.len(),
            out@.subrange(0, start.len() as int) == start,
            icons_fields(nv, k as int) == Ok::<Seq<IconV>, ErrV>(
                out@.map_values(|x: OrthodoxIcons| icon_view(x)).subrange(start.len() as int, out@.len() as int),
            ),
        decreases ns@.len() - k,
    {
        assert(nv[k as int] == node_view(ns@[k as int]));
        let f = &ns[k];
        match collect_modifiers(&f.value) {
            Ok(ms) => {
                let ghost before = out@;
                let icon = OrthodoxIcons { id: to_text(f.key.as_slice()), country_modifiers: ms };
                let ghost iv = icon_view(icon);
                out.push(icon);
                assert(out@.map_values(|x: OrthodoxIcons| icon_view(x)).subrange(start.len() as int, out@.len() as int)
                    =~= before.map_values(|x: OrthodoxIcons| icon_view(x)).subrange(start.len() as int, before.len() as int).push(iv));
                assert(out@.subrange(0, start.len() as int) =~= before.subrange(0, start.len() as int));
            },
            Err(e) => {
                proof {
                    lemma_icons_error_stays(nv, k + 1, nv.len() as int);
                }
                return Err(within_key(&f.key, e));
            },
        }
        k = k + 1;
    }
    Ok(())
}

fn picture_of(ns: &Vec<Node>) -> (r: Option<String>)
    ensures
        text_view(r) == picture_in(nodes_view(ns@), ns@.len() as int),
{
    let ghost nv = nodes_view(ns@);
    let mut pic: Option<String> = None;
    let mut k: usize = 0;
    while k < ns.len()
        invariant
            k <= ns@.len(),
            nv == nodes_view(ns@),
            text_view(pic) == picture_in(nv, k as int),
        decreases ns@.len() - k,
    {
        assert(nv[k as int] == node_view(ns@[k as int]));
        if key_is(ns[k].key.as_slice(), "picture") {
            pic = match &ns[k].value {
                Value::Scalar(w) => Some(to_text(w.as_slice())),
                _ => None,
            };
        }
        k = k + 1;
    }
    pic
}

/// Reads the schools of a `religious_schools` block.
pub fn parse_religious_schools(ns: &Vec<Node>) -> (r: Result<Vec<Schools>, ProjectionError>)
    ensures
        match r {
            Ok(ss) => schools_fields(nodes_view(ns@), ns@.len() as int) == Ok::<Seq<SchoolV>, ErrV>(
                ss@.map_values(|x: Schools| school_view(x)),
            ),
            Err(e) => schools_fields(nodes_view(ns@), ns@.len() as int) == Err::<Seq<SchoolV>, ErrV>(err_view(e)),
        },
{
    let ghost nv = nodes_view(ns@);
    let mut out: Vec<Schools> = Vec::new();
    let mut k: usize = 0;
    assert(out@.map_values(|x: Schools| school_view(x)) =~= seq![]);
    while k < ns.len()
        invariant
            k <= ns@.len(),
            nv == nodes_view(ns@),
            schools_fields(nv, k as int) == Ok::<Seq<SchoolV>, ErrV>(out@.map_values(|x: Schools| school_view(x))),
        decreases ns@.len() - k,
    {
        assert(nv[k as int] == node_view(ns@[k as int]));
        let f = &ns[k];
        match collect_modifiers(&f.value) {
            Ok(ms) => {
                let picture = match &f.value {
                    Value::Object(inner) => picture_of(inner),
                    _ => None,
                };
                let school = Schools { id: to_text(f.key.as_slice()), picture, country_modifiers: ms };
                let ghost before = out@.map_values(|x: Schools| school_view(x));
                let ghost sv = school_view(school);
                out.push(school);
                assert(out@.map_values(|x: Schools| school_view(x)) =~= before.push(sv));
            },
            Err(e) => {
                proof {
                    lemma_schools_error_stays(nv, k + 1, nv.len() as int);
                }
                return Err(within_key(&f.key, e));
            },
        }
        k = k + 1;
    }
    Ok(out)
}

fn read_curia(ns: &Vec<Node>) -> (r: Result<Option<u64>, ProjectionError>)
    ensures
        match r {
            Ok(c) => curia_fields(nodes_view(ns@), ns@.len() as int) == Ok::<Option<u64>, ErrV>(c),
            Err(e) => curia_fields(nodes_view(ns@), ns@.len() as int) == Err::<Option<u64>, ErrV>(err_view(e)),
        },
{
    let ghost nv = nodes_view(ns@);
    let mut cost: Option<u64> = None;
    let mut k: usize = 0;
    while k < ns.len()
        invariant
            k <= ns@.len(),
            nv == nodes_view(ns@),
            curia_fields(nv, k as int) == Ok::<Option<u64>, ErrV>(cost),
        decreases ns@.len() - k,
    {
        assert(nv[k as int] == node_view(ns@[k as int]));
        let k2 = &ns[k].key;
        if key_is(k2.as_slice(), "cost") {
            let c = match &ns[k].value {
                Value::Scalar(w) => to_u64(w.as_slice()),
                _ => Err(ScalarDecodeFailure::Expected(ScalarKind::Unsigned)),
            };
            match c {
                Ok(n) => {
                    cost = Some(n);
                },
                Err(_) => {
                    proof {
                        lemma_curia_error_stays(nv, k + 1, nv.len() as int);
                    }
                    return Err(within_key(k2, unsigned_failure()));
                },
            }
        } else if key_is(k2.as_slice(), "potential") || key_is(k2.as_slice(), "allow") || key_is(
            k2.as_slice(),
            "effect",
        ) || key_is(k2.as_slice(), "ai_will_do") {
        } else {
            proof {
                lemma_curia_error_stays(nv, k + 1, nv.len() as int);
            }
            return Err(unmodeled(k2));
        }
        k = k + 1;
    }
    Ok(cost)
}

fn apply_papacy_field(p: Papacy, f: &Node) -> (r: Result<Papacy, ProjectionError>)
    ensures
        match r {
            Ok(p2) => apply_papacy(papacy_view(p), node_view(*f)) == Ok::<PapacyV, ErrV>(papacy_view(p2)),
            Err(e) => apply_papacy(papacy_view(p), node_view(*f)) == Err::<PapacyV, ErrV>(err_view(e)),
        },
{
    reveal(apply_papacy);
    let mut p = p;
    let k = &f.key;
    if key_is(k.as_slice(), "papal_tag") {
        if let Value::Scalar(w) = &f.value {
            p.papal_tag = Some(to_text(w.as_slice()));
        }
    } else if key_is(k.as_slice(), "seat_of_papacy") {
        let c = match &f.value {
            Value::Scalar(w) => to_u64(w.as_slice()),
            _ => Err(ScalarDecodeFailure::Expected(ScalarKind::Unsigned)),
        };
        match c {
            Ok(n) => {
                p.seat_of_papacy = Some(n);
            },
            Err(_) => {
                return Err(within_key(k, unsigned_failure()));
            },
        }
    } else if key_is(k.as_slice(), "election_cost") || key_is(k.as_slice(), "harsh") || key_is(
        k.as_slice(),
        "neutral",
    ) || key_is(k.as_slice(), "concilatory") || key_is(k.as_slice(), "concessions") {
    } else {
        match &f.value {
            Value::Object(ns) => match read_curia(ns) {
                Ok(cost) => {
                    let c = CuriaInteraction { id: to_text(k.as_slice()), cost };
                    let ghost before = papacy_view(p).curia_interaction;
                    let ghost cv = curia_view(c);
                    p.curia_interaction.push(c);
                    assert(papacy_view(p).curia_interaction =~= before.push(cv));
                },
                Err(e) => {
                    return Err(within_key(k, e));
                },
            },
            _ => {
                return Err(unmodeled(k));
            },
        }
    }
    Ok(p)
}

fn read_papacy(ns: &Vec<Node>) -> (r: Result<Papacy, ProjectionError>)
    ensures
        match r {
            Ok(p) => papacy_fields(nodes_view(ns@), ns@.len() as int) == Ok::<PapacyV, ErrV>(papacy_view(p)),
            Err(e) => papacy_fields(nodes_view(ns@), ns@.len() as int) == Err::<PapacyV, ErrV>(err_view(e)),
        },
{
    let ghost nv = nodes_view(ns@);
    let mut p = Papacy { papal_tag: None, seat_of_papacy: None, concessions: Vec::new(), curia_interaction: Vec::new() };
    assert(papacy_view(p).curia_interaction =~= seq![]);
    let mut k: usize = 0;
    while k < ns.len()
        invariant
            k <= ns@.len(),
            nv == nodes_view(ns@),
            papacy_fields(nv, k as int) == Ok::<PapacyV, ErrV>(papacy_view(p)),
        decreases ns@.len() - k,
    {
        assert(nv[k as int] == node_view(ns@[k as int]));
        match apply_papacy_field(p, &ns[k]) {
            Ok(p2) => {
                p = p2;
            },
            Err(e) => {
                proof {
                    lemma_papacy_error_stays(nv, k + 1, nv.len() as int);
                }
                return Err(e);
            },
        }
        k = k + 1;
    }
    Ok(p)
}

fn is_religion_skipped(k: &[u8]) -> (r: bool)
    ensures
        r == religion_skipped(k@),
{
    key_is(k, "allowed_conversion") ||
        key_is(k, "allow_female_defenders_of_the_faith") ||
        key_is(k, "uses_church_power") ||
        key_is(k, "uses_anglican_power") ||
        key_is(k, "religious_reforms") ||
        key_is(k, "personal_deity") ||
        key_is(k, "hre_religion") ||
        key_is(k, "on_convert") ||
        key_is(k, "allowed_center_conversion") ||
        key_is(k, "will_get_center") ||
        key_is(k, "date") ||
        key_is(k, "fetishist_cult") ||
        key_is(k, "ancestors") ||
        key_is(k, "heretic") ||
        key_is(k, "uses_judaism_power") ||
        key_is(k, "aspects_name") ||
        key_is(k, "harmonized_modifier") ||
        key_is(k, "crusade_name") ||
        key_is(k, "uses_isolationism") ||
        key_is(k, "reform_tooltip") ||
        key_is(k, "celebrate") ||
        key_is(k, "declare_war_in_regency") ||
        key_is(k, "doom") ||
        key_is(k, "hre_heretic_religion") ||
        key_is(k, "gurus") ||
        key_is(k, "uses_karma") ||
        key_is(k, "uses_harmony") ||
        key_is(k, "has_patriarchs") ||
        key_is(k, "fervor") ||
        key_is(k, "uses_hussite_power") ||
        key_is(k, "can_have_secondary_religion") ||
        key_is(k, "authority") ||
        key_is(k, "misguided_heretic")
}

fn is_group_skipped(k: &[u8]) -> (r: bool)
    ensures
        r == group_skipped(k@),
{
    key_is(k, "can_form_personal_unions") ||
        key_is(k, "defender_of_faith") ||
        key_is(k, "flags_with_emblem_percentage") ||
        key_is(k, "flag_emblem_index_range") ||
        key_is(k, "ai_will_propagate_through_trade")
}

fn append_raw(to: &mut RawModifiers, ms: RawModifiers)
    ensures
        raw_view(*final(to)) == merged(raw_view(*old(to)), raw_view(ms)),
{
    let ghost a = raw_view(*to);
    let ghost b = raw_view(ms);
    let mut j: usize = 0;
    while j < ms.len()
        invariant
            j <= ms@.len(),
            b == raw_view(ms),
            raw_view(*to) == merged(a, b.take(j as int)),
        decreases ms@.len() - j,
    {
        assert(b.take(j + 1).drop_last() =~= b.take(j as int));
        put_modifier(to, copy_bytes(&ms[j].0), copy_bytes(&ms[j].1));
        j = j + 1;
    }
    assert(b.take(ms@.len() as int) =~= b);
}

fn religion_number_field(r: Religion, f: &Node) -> (res: Result<Religion, ProjectionError>)
    requires
        f.key@ == "icon".spec_bytes() || f.key@ == "color".spec_bytes() || f.key@ == "holy_sites".spec_bytes(),
    ensures
        match res {
            Ok(r2) => religion_numbers(religion_view(r), node_view(*f)) == Ok::<ReligionV, ErrV>(religion_view(r2)),
            Err(e) => religion_numbers(religion_view(r), node_view(*f)) == Err::<ReligionV, ErrV>(err_view(e)),
        },
{
    reveal(religion_numbers);
    let mut r = r;
    let k = &f.key;
    let ghost before = religion_view(r);
    if key_is(k.as_slice(), "icon") {
        if let Value::Scalar(w) = &f.value {
            match to_u64(w.as_slice()) {
                Ok(n) => {
                    r.icon = Some(n);
                },
                Err(_) => {
                    return Err(within_key(k, unsigned_failure()));
                },
            }
        }
    } else if let Value::Array(ws) = &f.value {
        let is_color = key_is(k.as_slice(), "color");
        let res = if is_color {
            read_u64_words(ws, &mut r.color)
        } else {
            read_u64_words(ws, &mut r.holy_sites)
        };
        match res {
            Ok(_) => {
                if is_color {
                    assert(r.color@ =~= before.color + r.color@.subrange(before.color.len() as int, r.color@.len() as int));
                } else {
                    assert(r.holy_sites@ =~= before.holy_sites + r.holy_sites@.subrange(before.holy_sites.len() as int, r.holy_sites@.len() as int));
                }
            },
            Err(e) => {
                return Err(within_key(k, e));
            },
        }
    }
    Ok(r)
}

fn religion_modifier_field(r: Religion, f: &Node) -> (res: Result<Religion, ProjectionError>)
    ensures
        match res {
            Ok(r2) => religion_modifiers(religion_view(r), node_view(*f)) == Ok::<ReligionV, ErrV>(religion_view(r2)),
            Err(e) => religion_modifiers(religion_view(r), node_view(*f)) == Err::<ReligionV, ErrV>(err_view(e)),
        },
{
    reveal(religion_modifiers);
    let mut r = r;
    let k = &f.key;
    match collect_modifiers(&f.value) {
        Ok(ms) => {
            if key_is(k.as_slice(), "country") {
                append_raw(&mut r.country_modifiers, ms);
            } else if key_is(k.as_slice(), "country_as_secondary") {
                append_raw(&mut r.country_as_secondary_modifiers, ms);
            } else {
                append_raw(&mut r.province_modifiers, ms);
            }
        },
        Err(e) => {
            return Err(within_key(k, e));
        },
    }
    Ok(r)
}

fn religion_text_field(r: Religion, f: &Node) -> (res: Religion)
    ensures
        religion_texts(religion_view(r), node_view(*f)) == Ok::<ReligionV, ErrV>(religion_view(res)),
{
    reveal(religion_texts);
    let mut r = r;
    let k = &f.key;
    if let Value::Array(ws) = &f.value {
        proof {
            let wv = ws@.map_values(|w: Vec<u8>| w@);
            assert(crate::missions::words_as_text(wv) =~= texts_of(node_view(*f).value)->0);
        }
        if key_is(k.as_slice(), "aspects") {
            crate::missions::words_to_text(ws, &mut r.aspects);
        } else {
            crate::missions::words_to_text(ws, &mut r.blessings);
        }
    }
    r
}

fn religion_block_field(r: Religion, f: &Node) -> (res: Result<Religion, ProjectionError>)
    ensures
        match res {
            Ok(r2) => religion_blocks(religion_view(r), node_view(*f)) == Ok::<ReligionV, ErrV>(religion_view(r2)),
            Err(e) => religion_blocks(religion_view(r), node_view(*f)) == Err::<ReligionV, ErrV>(err_view(e)),
        },
{
    reveal(religion_blocks);
    let mut r = r;
    let k = &f.key;
    let ghost before = religion_view(r);
    if key_is(k.as_slice(), "papacy") {
        if let Value::Object(ns) = &f.value {
            match read_papacy(ns) {
                Ok(p) => {
                    r.papacy = Some(p);
                },
                Err(e) => {
                    return Err(within_key(k, e));
                },
            }
        }
    } else if let Value::Object(ns) = &f.value {
        match read_icons(ns, &mut r.orthodox_icons) {
            Ok(_) => {
                let ghost iv = r.orthodox_icons@.map_values(|x: OrthodoxIcons| icon_view(x));
                assert(iv =~= before.orthodox_icons + iv.subrange(before.orthodox_icons.len() as int, iv.len() as int));
            },
            Err(e) => {
                return Err(within_key(k, e));
            },
        }
    }
    Ok(r)
}

fn apply_religion_field(r: Religion, f: &Node) -> (res: Result<Religion, ProjectionError>)
    ensures
        match res {
            Ok(r2) => apply_religion(religion_view(r), node_view(*f)) == Ok::<ReligionV, ErrV>(religion_view(r2)),
            Err(e) => apply_religion(religion_view(r), node_view(*f)) == Err::<ReligionV, ErrV>(err_view(e)),
        },
{
    reveal(apply_religion);
    let k = f.key.as_slice();
    if key_is(k, "icon") || key_is(k, "color") || key_is(k, "holy_sites") {
        religion_number_field(r, f)
    } else if key_is(k, "country") || key_is(k, "country_as_secondary") || key_is(k, "province") {
        religion_modifier_field(r, f)
    } else if key_is(k, "aspects") || key_is(k, "blessings") {
        Ok(religion_text_field(r, f))
    } else if key_is(k, "papacy") || key_is(k, "orthodox_icons") {
        religion_block_field(r, f)
    } else if is_religion_skipped(k) {
        Ok(r)
    } else {
        Err(unmodeled(&f.key))
    }
}

/// Reads one religion from the statement `f` of a group.
pub fn parse_religion(f: &Node) -> (r: Result<Religion, ProjectionError>)
    ensures
        match r {
            Ok(x) => religion_of(node_view(*f)) == Ok::<ReligionV, ErrV>(religion_view(x)),
            Err(e) => religion_of(node_view(*f)) == Err::<ReligionV, ErrV>(err_view(e)),
        },
{
    let mut r = Religion {
        id: to_text(f.key.as_slice()),
        color: Vec::new(),
        icon: None,
        country_modifiers: Vec::new(),
        country_as_secondary_modifiers: Vec::new(),
        province_modifiers: Vec::new(),
        aspects: Vec::new(),
        holy_sites: Vec::new(),
        blessings: Vec::new(),
        orthodox_icons: Vec::new(),
        papacy: None,
    };
    proof {
        let v = religion_view(r);
        assert(v.color =~= seq![]);
        assert(v.holy_sites =~= seq![]);
        assert(v.aspects =~= seq![]);
        assert(v.blessings =~= seq![]);
        assert(v.orthodox_icons =~= seq![]);
        assert(v.country_modifiers =~= seq![]);
        assert(v.country_as_secondary_modifiers =~= seq![]);
        assert(v.province_modifiers =~= seq![]);
    }
    let ns = match &f.value {
        Value::Object(ns) => ns,
        _ => {
            return Ok(r);
        },
    };
    let ghost nv = nodes_view(ns@);
    let ghost id = windows1252_text(f.key@);
    let mut k: usize = 0;
    while k < ns.len()
        invariant
            k <= ns@.len(),
            nv == nodes_view(ns@),
            node_view(*f).value == ValueV::Object(nv),
            id == windows1252_text(f.key@),
            religion_fields(nv, k as int, id) == Ok::<ReligionV, ErrV>(religion_view(r)),
        decreases ns@.len() - k,
    {
        assert(nv[k as int] == node_view(ns@[k as int]));
        match apply_religion_field(r, &ns[k]) {
            Ok(r2) => {
                r = r2;
            },
            Err(e) => {
                proof {
                    lemma_religion_error_stays(nv, k + 1, nv.len() as int, id);
                }
                return Err(within_key(&f.key, e));
            },
        }
        k = k + 1;
    }
    Ok(r)
}

fn apply_group_field(g: ReligiousGroup, f: &Node) -> (r: Result<ReligiousGroup, ProjectionError>)
    ensures
        match r {
            Ok(g2) => apply_group(group_view(g), node_view(*f)) == Ok::<GroupV, ErrV>(group_view(g2)),
            Err(e) => apply_group(group_view(g), node_view(*f)) == Err::<GroupV, ErrV>(err_view(e)),
        },
{
    reveal(apply_group);
    let mut g = g;
    let k = &f.key;
    if is_group_skipped(k.as_slice()) {
    } else if key_is(k.as_slice(), "center_of_religion") {
        if let Value::Scalar(w) = &f.value {
            if let Ok(n) = to_u64(w.as_slice()) {
                g.center_of_religion = Some(n);
            }
        }
    } else if key_is(k.as_slice(), "religious_schools") {
        match &f.value {
            Value::Object(ns) => match parse_religious_schools(ns) {
                Ok(ss) => {
                    g.schools = Some(ss);
                },
                Err(e) => {
                    return Err(within_key(k, e));
                },
            },
            _ => {
                let ss: Vec<Schools> = Vec::new();
                assert(ss@.map_values(|x: Schools| school_view(x)) =~= seq![]);
                g.schools = Some(ss);
            },
        }
    } else if key_is(k.as_slice(), "crusade_name") {
        if let Value::Scalar(w) = &f.value {
            g.crusade_name = Some(to_text(w.as_slice()));
        }
    } else if key_is(k.as_slice(), "harmonized_modifier") {
        if let Value::Scalar(w) = &f.value {
            g.harmonized_modifier = Some(to_text(w.as_slice()));
        }
    } else {
        match parse_religion(f) {
            Ok(x) => {
                let ghost before = group_view(g).religions;
                let ghost xv = religion_view(x);
                g.religions.push(x);
                assert(group_view(g).religions =~= before.push(xv));
            },
            Err(e) => {
                return Err(e);
            },
        }
    }
    Ok(g)
}

/// Reads one religious group from a top-level statement.
pub fn parse_religious_group(f: &Node) -> (r: Result<ReligiousGroup, ProjectionError>)
    ensures
        match r {
            Ok(g) => group_of(node_view(*f)) == Ok::<GroupV, ErrV>(group_view(g)),
            Err(e) => group_of(node_view(*f)) == Err::<GroupV, ErrV>(err_view(e)),
        },
{
    let mut g = ReligiousGroup {
        id: to_text(f.key.as_slice()),
        center_of_religion: None,
        religions: Vec::new(),
        harmonized_modifier: None,
        crusade_name: None,
        schools: None,
    };
    assert(group_view(g).religions =~= seq![]);
    let ns = match &f.value {
        Value::Object(ns) => ns,
        _ => {
            return Ok(g);
        },
    };
    let ghost nv = nodes_view(ns@);
    let ghost id = windows1252_text(f.key@);
    let mut k: usize = 0;
    while k < ns.len()
        invariant
            k <= ns@.len(),
            nv == nodes_view(ns@),
            node_view(*f).value == ValueV::Object(nv),
            id == windows1252_text(f.key@),
            group_fields(nv, k as int, id) == Ok::<GroupV, ErrV>(group_view(g)),
        decreases ns@.len() - k,
    {
        assert(nv[k as int] == node_view(ns@[k as int]));
        match apply_group_field(g, &ns[k]) {
            Ok(g2) => {
                g = g2;
            },
            Err(e) => {
                proof {
                    lemma_group_error_stays(nv, k + 1, nv.len() as int, id);
                }
                return Err(within_key(&f.key, e));
            },
        }
        k = k + 1;
    }
    Ok(g)
}

/// Reads a religions file: one group per top-level statement.
pub fn parse_religious_groups_file(data: &[u8]) -> (r: Result<Vec<ReligiousGroup>, ProjectionError>)
    ensures
        match r {
            Ok(gs) => religion_file(data@) == Ok::<Seq<GroupV>, ErrV>(gs@.map_values(|g: ReligiousGroup| group_view(g))),
            Err(e) => religion_file(data@) == Err::<Seq<GroupV>, ErrV>(err_view(e)),
        },
{
    let ns = match parse_tree(data) {
        Ok(ns) => ns,
        Err(crate::tree::ParseError::MalformedSyntax { offset }) => {
            return Err(ProjectionError::MalformedSyntax { offset });
        },
    };
    let ghost nv = nodes_view(ns@);
    let mut out: Vec<ReligiousGroup> = Vec::new();
    assert(out@.map_values(|g: ReligiousGroup| group_view(g)) =~= seq![]);
    let mut k: usize = 0;
    while k < ns.len()
        invariant
            k <= ns@.len(),
            nv == nodes_view(ns@),
            parsed(data@) == Ok::<Seq<NodeV>, int>(nv),
            groups_of(nv, k as int) == Ok::<Seq<GroupV>, ErrV>(out@.map_values(|g: ReligiousGroup| group_view(g))),
        decreases ns@.len() - k,
    {
        assert(nv[k as int] == node_view(ns@[k as int]));
        match parse_religious_group(&ns[k]) {
            Ok(g) => {
                let ghost before = out@.map_values(|g: ReligiousGroup| group_view(g));
                let ghost gv = group_view(g);
                out.push(g);
                assert(out@.map_values(|g: ReligiousGroup| group_view(g)) =~= before.push(gv));
            },
            Err(e) => {
                proof {
                    lemma_groups_error_stays(nv, k + 1, nv.len() as int);
                }
                return Err(e);
            },
        }
        k = k + 1;
    }
    Ok(out)
}

proof fn lemma_pairs_prefix(ns: Seq<NodeV>, f: NodeV, k: int)
    requires
        0 <= k <= ns.len(),
    ensures
        modifier_pairs(ns.push(f), k) == modifier_pairs(ns, k),
    decreases k,
{
    if k > 0 {
        lemma_pairs_prefix(ns, f, k - 1);
        assert(ns.push(f)[k - 1] == ns[k - 1]);
    }
}

/// A key that the catalog does not know is dropped from a modifier block: adding such
/// a statement changes neither the modifiers read nor whether reading fails.
pub proof fn lemma_unknown_modifier_dropped(ns: Seq<NodeV>, f: NodeV)
    requires
        catalog(f.key) is None,
    ensures
        modifier_pairs(ns.push(f), ns.len() + 1int) == modifier_pairs(ns, ns.len() as int),
{
    lemma_pairs_prefix(ns, f, ns.len() as int);
    assert(ns.push(f)[ns.len() as int] == f);
}

/// A block with one catalogued modifier and one unknown key, in either order, reads
/// as that one modifier, without error.
pub proof fn lemma_known_and_unknown_modifier(known: NodeV, unknown: NodeV)
    requires
        catalog(known.key) is Some,
        known.value is Scalar,
        catalog(unknown.key) is None,
    ensures
        modifier_pairs(seq![known, unknown], 2) == Ok::<Seq<(Seq<u8>, Seq<u8>)>, ErrV>(
            seq![(known.key, known.value->Scalar_0)],
        ),
        modifier_pairs(seq![unknown, known], 2) == Ok::<Seq<(Seq<u8>, Seq<u8>)>, ErrV>(
            seq![(known.key, known.value->Scalar_0)],
        ),
{
    let a = seq![known, unknown];
    let b = seq![unknown, known];
    assert(a[0] == known && a[1] == unknown);
    assert(b[0] == unknown && b[1] == known);
    assert(modifier_pairs(a, 0) == Ok::<Seq<(Seq<u8>, Seq<u8>)>, ErrV>(seq![]));
    assert(modifier_pairs(a, 1) == Ok::<Seq<(Seq<u8>, Seq<u8>)>, ErrV>(seq![(known.key, known.value->Scalar_0)])) by {
        assert(seq![].push((known.key, known.value->Scalar_0)) =~= seq![(known.key, known.value->Scalar_0)]);
    }
    assert(modifier_pairs(b, 0) == Ok::<Seq<(Seq<u8>, Seq<u8>)>, ErrV>(seq![]));
    assert(modifier_pairs(b, 1) == Ok::<Seq<(Seq<u8>, Seq<u8>)>, ErrV>(seq![]));
    assert(modifier_pairs(b, 2) == Ok::<Seq<(Seq<u8>, Seq<u8>)>, ErrV>(seq![(known.key, known.value->Scalar_0)])) by {
        assert(seq![].push((known.key, known.value->Scalar_0)) =~= seq![(known.key, known.value->Scalar_0)]);
    }
}

/// A religions file gives one group per top-level statement, in file order, repeated
/// keys included; it is read whenever every statement is.
pub proof fn lemma_one_group_per_statement(ns: Seq<NodeV>, k: int)
    requires
        0 <= k <= ns.len(),
    ensures
        (forall|i: int| 0 <= i < k ==> (#[trigger] group_of(ns[i])) is Ok) ==> groups_of(ns, k) is Ok,
        groups_of(ns, k) is Ok ==> {
            let rs = groups_of(ns, k)->Ok_0;
            &&& rs.len() == k
            &&& forall|i: int| 0 <= i < k ==> group_of(ns[i]) == Ok::<GroupV, ErrV>(#[trigger] rs[i])
        },
    decreases k,
{
    if k > 0 {
        lemma_one_group_per_statement(ns, k - 1);
        if groups_of(ns, k) is Ok {
            let rs = groups_of(ns, k)->Ok_0;
            let prev = groups_of(ns, k - 1)->Ok_0;
            assert(rs == prev.push(group_of(ns[k - 1])->Ok_0));
            assert forall|i: int| 0 <= i < k implies group_of(ns[i]) == Ok::<GroupV, ErrV>(#[trigger] rs[i]) by {
                if i < k - 1 {
                    assert(rs[i] == prev[i]);
                }
            }
        }
    }
}

proof fn lemma_group_fields_keep_id(ns: Seq<NodeV>, k: int, id: Seq<char>)
    ensures
        group_fields(ns, k, id) is Ok ==> group_fields(ns, k, id)->Ok_0.id == id,
    decreases k,
{
    if 0 < k <= ns.len() {
        lemma_group_fields_keep_id(ns, k - 1, id);
        reveal(apply_group);
    }
}

/// A group's id is the text of its key.
pub proof fn lemma_group_id_is_key(f: NodeV)
    ensures
        group_of(f) is Ok ==> group_of(f)->Ok_0.id == windows1252_text(f.key),
{
    if let ValueV::Object(ns) = f.value {
        lemma_group_fields_keep_id(ns, ns.len() as int, windows1252_text(f.key));
    }
}

/// The value that a mapping holds for `k`, if any.
pub open spec fn value_for(ms: Seq<(Seq<u8>, Seq<u8>)>, k: Seq<u8>) -> Option<Seq<u8>> {
    let i = key_index(ms, k);
    if 0 <= i < ms.len() {
        Some(ms[i].1)
    } else {
        None
    }
}

proof fn lemma_key_index_found(ms: Seq<(Seq<u8>, Seq<u8>)>, k: Seq<u8>)
    ensures
        -1 <= key_index(ms, k) < ms.len(),
        key_index(ms, k) >= 0 ==> ms[key_index(ms, k)].0 == k,
    decreases ms.len(),
{
    if ms.len() > 0 && ms.last().0 != k {
        lemma_key_index_found(ms.drop_last(), k);
    }
}

proof fn lemma_key_index_update(ms: Seq<(Seq<u8>, Seq<u8>)>, j: int, p: (Seq<u8>, Seq<u8>), k: Seq<u8>)
    requires
        0 <= j < ms.len(),
        ms[j].0 == p.0,
    ensures
        key_index(ms.update(j, p), k) == key_index(ms, k),
    decreases ms.len(),
{
    let u = ms.update(j, p);
    if j < ms.len() - 1 {
        assert(u.drop_last() =~= ms.drop_last().update(j, p));
        lemma_key_index_update(ms.drop_last(), j, p, k);
    } else {
        assert(u.drop_last() =~= ms.drop_last());
    }
}

proof fn lemma_put_value(ms: Seq<(Seq<u8>, Seq<u8>)>, k: Seq<u8>, w: Seq<u8>, k2: Seq<u8>)
    ensures
        value_for(put(ms, k, w), k) == Some(w),
        k2 != k ==> value_for(put(ms, k, w), k2) == value_for(ms, k2),
{
    lemma_key_index_found(ms, k);
    lemma_key_index_found(ms, k2);
    let i = key_index(ms, k);
    if 0 <= i < ms.len() {
        lemma_key_index_update(ms, i, (k, w), k);
        lemma_key_index_update(ms, i, (k, w), k2);
        lemma_key_index_found(ms.update(i, (k, w)), k2);
    } else {
        assert(ms.push((k, w)).drop_last() =~= ms);
    }
}

/// A catalogued modifier keeps its raw bytes exactly as written: the last statement for
/// a key gives the value that the mapping holds for it.
pub proof fn lemma_modifier_bytes_kept(ns: Seq<NodeV>, i: int, m: int)
    requires
        0 <= i < m <= ns.len(),
        catalog(ns[i].key) is Some,
        ns[i].value is Scalar,
        forall|j: int| i < j < m ==> (#[trigger] ns[j]).key != ns[i].key,
        modifier_pairs(ns, m) is Ok,
    ensures
        value_for(modifier_pairs(ns, m)->Ok_0, ns[i].key) == Some(ns[i].value->Scalar_0),
    decreases m,
{
    if modifier_pairs(ns, m - 1) is Err {
        lemma_pairs_error_stays(ns, m - 1, m);
    }
    let prev = modifier_pairs(ns, m - 1)->Ok_0;
    let f = ns[m - 1];
    if m - 1 == i {
        lemma_put_value(prev, f.key, f.value->Scalar_0, f.key);
    } else {
        lemma_modifier_bytes_kept(ns, i, m - 1);
        if catalog(f.key) is Some {
            lemma_put_value(prev, f.key, f.value->Scalar_0, ns[i].key);
        }
    }
}

} // verus!
