//! Bundled modifiers: named sets of modifiers with an optional picture.
use vstd::prelude::*;
use vstd::string::StringSliceAdditionalSpecFns;
use crate::error::{ErrV, ProjectionError, err_view, within, within_key};
use crate::localisation::{LocalisationIndex, find_text, index_view, lookup_in};
use crate::religions::{RawModifiers, collect_modifiers, modifiers_of, raw_view};
use crate::scalar::{to_text, windows1252_text};
use crate::text::key_is;
use crate::tree::{Node, NodeV, Value, ValueV, node_view, nodes_view, parse_tree, parsed};
use crate::trigger::text_view;

verus! {

/// A bundle of modifiers under one identifier.
#[derive(Debug)]
pub struct BundledModifier {
    pub id: String,
    pub picture: Option<String>,
    pub name: Option<String>,
    pub modifiers: RawModifiers,
    /// Which events, missions or actions give the bundle; left empty here.
    pub called_by: Vec<(String, String)>,
}

pub struct BundledV {
    pub id: Seq<char>,
    pub picture: Option<Seq<char>>,
    pub name: Option<Seq<char>>,
    pub modifiers: Seq<(Seq<u8>, Seq<u8>)>,
    pub called_by: Seq<(Seq<char>, Seq<char>)>,
}

pub open spec fn bundled_view(b: BundledModifier) -> BundledV {
    BundledV {
        id: b.id@,
        picture: text_view(b.picture),
        name: text_view(b.name),
        modifiers: raw_view(b.modifiers),
        called_by: b.called_by@.map_values(|p: (String, String)| (p.0@, p.1@)),
    }
}

/// What `str::to_lowercase` makes of a text.
pub uninterp spec fn lowercase_text(s: Seq<char>) -> Seq<char>;

/// Relies on `str::to_lowercase`: the lowercase form depends on the text alone.
#[verifier::external_body]
fn to_lowercase(s: &str) -> (r: String)
    ensures
        r@ == lowercase_text(s@),
{
    s.to_lowercase()
}

/// The picture of a bundle: the lowercase text of its last scalar `picture`.
pub open spec fn bundled_picture(ns: Seq<NodeV>, k: int) -> Option<Seq<char>>
    decreases k,
{
    if k <= 0 || k > ns.len() {
        None
    } else if ns[k - 1].key == "picture".spec_bytes() && ns[k - 1].value is Scalar {
        Some(lowercase_text(windows1252_text(ns[k - 1].value->Scalar_0)))
    } else {
        bundled_picture(ns, k - 1)
    }
}

/// The bundle of one top-level statement; its name is the localisation of its id.
pub open spec fn bundled_of(f: NodeV, loc: Option<Seq<(Seq<char>, Seq<char>)>>) -> Result<
    BundledV,
    ErrV,
> {
    let id = windows1252_text(f.key);
    match modifiers_of(f.value) {
        Err(e) => Err(within(f.key, e)),
        Ok(ms) => Ok(
            BundledV {
                id,
                picture: match f.value {
                    ValueV::Object(ns) => bundled_picture(ns, ns.len() as int),
                    _ => None,
                },
                name: lookup_in(loc, id),
                modifiers: ms,
                called_by: seq![],
            },
        ),
    }
}

pub open spec fn bundles_of(ns: Seq<NodeV>, k: int, loc: Option<Seq<(Seq<char>, Seq<char>)>>) -> Result<
    Seq<BundledV>,
    ErrV,
>
    decreases k,
{
    if k <= 0 || k > ns.len() {
        Ok(seq![])
    } else {
        match bundles_of(ns, k - 1, loc) {
            Err(e) => Err(e),
            Ok(bs) => match bundled_of(ns[k - 1], loc) {
                Err(e) => Err(e),
                Ok(b) => Ok(bs.push(b)),
            },
        }
    }
}

/// What a modifier file gives: one bundle per top-level statement.
pub open spec fn modifier_file(b: Seq<u8>, loc: Option<Seq<(Seq<char>, Seq<char>)>>) -> Result<
    Seq<BundledV>,
    ErrV,
> {
    match parsed(b) {
        Err(o) => Err(ErrV::MalformedSyntax(o)),
        Ok(ns) => bundles_of(ns, ns.len() as int, loc),
    }
}

proof fn lemma_bundles_error_stays(
    ns: Seq<NodeV>,
    j: int,
    m: int,
    loc: Option<Seq<(Seq<char>, Seq<char>)>>,
)
    requires
        0 <= j <= m <= ns.len(),
        bundles_of(ns, j, loc) is Err,
    ensures
        bundles_of(ns, m, loc) == bundles_of(ns, j, loc),
    decreases m - j,
{
    if m > j {
        lemma_bundles_error_stays(ns, j, m - 1, loc);
    }
}

fn picture_of_bundle(ns: &Vec<Node>) -> (r: Option<String>)
    ensures
        text_view(r) == bundled_picture(nodes_view(ns@), ns@.len() as int),
{
    let ghost nv = nodes_view(ns@);
    let mut pic: Option<String> = None;
    let mut k: usize = 0;
    while k < ns.len()
        invariant
            k <= ns@.len(),
            nv == nodes_view(ns@),
            text_view(pic) == bundled_picture(nv, k as int),
        decreases ns@.len() - k,
    {
        assert(nv[k as int] == node_view(ns@[k as int]));
        if key_is(ns[k].key.as_slice(), "picture") {
            if let Value::Scalar(w) = &ns[k].value {
                let t = to_text(w.as_slice());
                pic = Some(to_lowercase(t.as_str()));
            }
        }
        k = k + 1;
    }
    pic
}

/// Reads one bundle from a top-level statement.
pub fn parse_bundled_modifier(f: &Node, loc: Option<&LocalisationIndex>) -> (r: Result<
    BundledModifier,
    ProjectionError,
>)
    ensures
        match r {
            Ok(b) => bundled_of(node_view(*f), index_view(loc)) == Ok::<BundledV, ErrV>(bundled_view(b)),
            Err(e) => bundled_of(node_view(*f), index_view(loc)) == Err::<BundledV, ErrV>(err_view(e)),
        },
{
    let modifiers = match collect_modifiers(&f.value) {
        Ok(ms) => ms,
        Err(e) => {
            return Err(within_key(&f.key, e));
        },
    };
    let id = to_text(f.key.as_slice());
    let name = find_text(loc, &id);
    let picture = match &f.value {
        Value::Object(ns) => picture_of_bundle(ns),
        _ => None,
    };
    let called_by: Vec<(String, String)> = Vec::new();
    let b = BundledModifier { id, picture, name, modifiers, called_by };
    assert(bundled_view(b).called_by =~= seq![]);
    Ok(b)
}

/// Reads a file of bundled modifiers: one bundle per top-level statement.
pub fn parse_modifier_file(data: &[u8], loc: Option<&LocalisationIndex>) -> (r: Result<
    Vec<BundledModifier>,
    ProjectionError,
>)
    ensures
        match r {
            Ok(bs) => modifier_file(data@, index_view(loc)) == Ok::<Seq<BundledV>, ErrV>(
                bs@.map_values(|b: BundledModifier| bundled_view(b)),
            ),
            Err(e) => modifier_file(data@, index_view(loc)) == Err::<Seq<BundledV>, ErrV>(err_view(e)),
        },
{
    let ns = match parse_tree(data) {
        Ok(ns) => ns,
        Err(crate::tree::ParseError::MalformedSyntax { offset }) => {
            return Err(ProjectionError::MalformedSyntax { offset });
        },
    };
    let ghost nv = nodes_view(ns@);
    let ghost lv = index_view(loc);
    let mut out: Vec<BundledModifier> = Vec::new();
    assert(out@.map_values(|b: BundledModifier| bundled_view(b)) =~= seq![]);
    let mut k: usize = 0;
    while k < ns.len()
        invariant
            k <= ns@.len(),
            nv == nodes_view(ns@),
            lv == index_view(loc),
            parsed(data@) == Ok::<Seq<NodeV>, int>(nv),
            bundles_of(nv, k as int, lv) == Ok::<Seq<BundledV>, ErrV>(out@.map_values(|b: BundledModifier| bundled_view(b))),
        decreases ns@.len() - k,
    {
        assert(nv[k as int] == node_view(ns@[k as int]));
        match parse_bundled_modifier(&ns[k], loc) {
            Ok(b) => {
                let ghost before = out@.map_values(|b: BundledModifier| bundled_view(b));
                let ghost bv = bundled_view(b);
                out.push(b);
                assert(out@.map_values(|b: BundledModifier| bundled_view(b)) =~= before.push(bv));
            },
            Err(e) => {
                proof {
                    lemma_bundles_error_stays(nv, k + 1, nv.len() as int, lv);
                }
                return Err(e);
            },
        }
        k = k + 1;
    }
    Ok(out)
}

/// A modifier file gives one bundle per top-level statement, in file order, repeated
/// keys included; it is read whenever every statement is.
pub proof fn lemma_one_bundle_per_statement(ns: Seq<NodeV>, k: int, loc: Option<Seq<(Seq<char>, Seq<char>)>>)
    requires
        0 <= k <= ns.len(),
    ensures
        (forall|i: int| 0 <= i < k ==> (#[trigger] bundled_of(ns[i], loc)) is Ok) ==> bundles_of(ns, k, loc) is Ok,
        bundles_of(ns, k, loc) is Ok ==> {
            let rs = bundles_of(ns, k, loc)->Ok_0;
            &&& rs.len() == k
            &&& forall|i: int| 0 <= i < k ==> bundled_of(ns[i], loc) == Ok::<BundledV, ErrV>(#[trigger] rs[i])
        },
    decreases k,
{
    if k > 0 {
        lemma_one_bundle_per_statement(ns, k - 1, loc);
        if bundles_of(ns, k, loc) is Ok {
            let rs = bundles_of(ns, k, loc)->Ok_0;
            let prev = bundles_of(ns, k - 1, loc)->Ok_0;
            assert(rs == prev.push(bundled_of(ns[k - 1], loc)->Ok_0));
            assert forall|i: int| 0 <= i < k implies bundled_of(ns[i], loc) == Ok::<BundledV, ErrV>(#[trigger] rs[i]) by {
                if i < k - 1 {
                    assert(rs[i] == prev[i]);
                }
            }
        }
    }
}

/// A bundle's id is the text of its key, and its name the localisation of that text.
pub proof fn lemma_bundle_id_is_key(f: NodeV, loc: Option<Seq<(Seq<char>, Seq<char>)>>)
    ensures
        bundled_of(f, loc) is Ok ==> bundled_of(f, loc)->Ok_0.id == windows1252_text(f.key)
            && bundled_of(f, loc)->Ok_0.name == lookup_in(loc, windows1252_text(f.key)),
{
}

} // verus!
