//! Which add-on ribbon tabs are shown, in what order, and which loaded
//! add-on a command goes to next.
//!
//! The host keeps the ids of disabled add-ons in an `FxHashSet<String>`; a
//! loaded add-on is seen here through the few plain facts the choice needs.

use vstd::prelude::*;
use rustc_hash::{FxBuildHasher, FxHashSet};
use crate::manifest::PluginManifest;

verus! {

/// The Fx hashing state of the disabled-id set (carried through unchanged).
#[verifier::external_type_specification]
#[verifier::external_body]
pub struct ExFxBuildHasher(FxBuildHasher);

/// The ids held by a set of add-on ids, as character sequences.
pub uninterp spec fn id_set(s: FxHashSet<String>) -> Set<Seq<char>>;

/// `FxHashSet::default`: a set with no ids.
#[verifier::external_body]
fn empty_id_set() -> (s: FxHashSet<String>)
    ensures
        id_set(s) == Set::<Seq<char>>::empty(),
{
    FxHashSet::default()
}

/// `HashSet::contains` on the disabled-id set: whether `id` is one of its ids.
#[verifier::external_body]
fn id_set_contains(s: &FxHashSet<String>, id: &str) -> (b: bool)
    ensures
        b == id_set(*s).contains(id@),
{
    s.contains(id)
}

/// What the ribbon and the dispatcher need to know of one loaded add-on.
#[derive(Clone, Debug)]
pub struct LoadedTab {
    pub id: String,
    /// The add-on manifest's `ribbon_order`.
    pub ribbon_order: i32,
    /// Whether the add-on's process is still running.
    pub alive: bool,
}

/// Entry `i` of `loaded` contributes a ribbon tab: it is running and not
/// disabled.
pub open spec fn shows_tab(loaded: Seq<LoadedTab>, disabled: Set<Seq<char>>, i: int) -> bool {
    0 <= i < loaded.len() && loaded[i].alive && !disabled.contains(loaded[i].id@)
}

/// Tab `i` comes before tab `j`: lower `ribbon_order` first, and among equal
/// orders the add-on that was loaded first.
pub open spec fn tab_before(loaded: Seq<LoadedTab>, i: int, j: int) -> bool {
    loaded[i].ribbon_order < loaded[j].ribbon_order || (loaded[i].ribbon_order
        == loaded[j].ribbon_order && i < j)
}

/// `r` lists each shown tab once, in tab order.
pub open spec fn is_tab_order(r: Seq<usize>, loaded: Seq<LoadedTab>, disabled: Set<Seq<char>>) -> bool {
    &&& forall|k: int| 0 <= k < r.len() ==> shows_tab(loaded, disabled, #[trigger] r[k] as int)
    &&& forall|i: int| #[trigger]
        shows_tab(loaded, disabled, i) ==> exists|k: int| 0 <= k < r.len() && r[k] == i
    &&& forall|k: int, l: int|
        0 <= k < l < r.len() ==> tab_before(loaded, #[trigger] r[k] as int, #[trigger] r[l] as int)
}

/// The add-on tabs to show after the core tabs: the loaded add-ons that are
/// running and not in `disabled`, by `ribbon_order` (a stable sort, so equal
/// orders keep load order). Returns indices into `loaded`.
pub fn ribbon_tabs_enabled(loaded: &Vec<LoadedTab>, disabled: &FxHashSet<String>) -> (r: Vec<usize>)
    ensures
        is_tab_order(r@, loaded@, id_set(*disabled)),
{
    let ghost d = id_set(*disabled);
    let mut out: Vec<usize> = Vec::new();
    let mut i: usize = 0;
    while i < loaded.len()
        invariant
            i <= loaded@.len(),
            d == id_set(*disabled),
            forall|k: int| 0 <= k < out@.len() ==> #[trigger] out@[k] < i,
            forall|k: int|
                0 <= k < out@.len() ==> shows_tab(loaded@, d, #[trigger] out@[k] as int),
            forall|j: int|
                0 <= j < i && #[trigger] shows_tab(loaded@, d, j) ==> exists|k: int|
                    0 <= k < out@.len() && out@[k] == j,
            forall|k: int, l: int|
                0 <= k < l < out@.len() ==> tab_before(
                    loaded@,
                    #[trigger] out@[k] as int,
                    #[trigger] out@[l] as int,
                ),
        decreases loaded@.len() - i,
    {
        let t = &loaded[i];
        if t.alive && !id_set_contains(disabled, t.id.as_str()) {
            let mut pos: usize = 0;
            while pos < out.len() && loaded[out[pos]].ribbon_order <= t.ribbon_order
                invariant
                    pos <= out@.len(),
                    i < loaded@.len(),
                    t == loaded@[i as int],
                    forall|k: int| 0 <= k < out@.len() ==> #[trigger] out@[k] < i,
                    forall|k: int|
                        0 <= k < pos ==> tab_before(loaded@, #[trigger] out@[k] as int, i as int),
                decreases out@.len() - pos,
            {
                pos = pos + 1;
            }
            let ghost old_out = out@;
            proof {
                assert forall|k: int| pos <= k < old_out.len() implies tab_before(
                    loaded@,
                    i as int,
                    #[trigger] old_out[k] as int,
                ) by {
                    if k > pos {
                        assert(tab_before(loaded@, old_out[pos as int] as int, old_out[k] as int));
                    }
                }
            }
            out.insert(pos, i);
            proof {
                assert forall|j: int|
                    0 <= j < i + 1 && #[trigger] shows_tab(loaded@, d, j) implies exists|k: int|
                        0 <= k < out@.len() && out@[k] == j by {
                    if j == i {
                        assert(out@[pos as int] == i);
                    } else {
                        let k0 = choose|k: int| 0 <= k < old_out.len() && old_out[k] == j;
                        if k0 < pos {
                            assert(out@[k0] == j);
                        } else {
                            assert(out@[k0 + 1] == j);
                        }
                    }
                }
            }
        }
        i = i + 1;
    }
    out
}

/// The tabs of every running add-on, none disabled.
pub fn all_ribbon_tabs(loaded: &Vec<LoadedTab>) -> (r: Vec<usize>)
    ensures
        is_tab_order(r@, loaded@, Set::empty()),
{
    let none = empty_id_set();
    ribbon_tabs_enabled(loaded, &none)
}

/// The next loaded add-on, at index `from` or later, that a command is
/// offered to: the first one not in `disabled`. The caller reports it
/// instead when its process has died, and stops once one handles the command.
pub fn next_dispatch_target(loaded: &Vec<LoadedTab>, disabled: &FxHashSet<String>, from: usize) -> (r: Option<usize>)
    ensures
        match r {
            Some(j) => from <= j < loaded@.len() && !id_set(*disabled).contains(loaded@[j as int].id@)
                && forall|k: int|
                from <= k < j ==> id_set(*disabled).contains(#[trigger] loaded@[k].id@),
            None => forall|k: int|
                from <= k < loaded@.len() ==> id_set(*disabled).contains(#[trigger] loaded@[k].id@),
        },
{
    let mut j = from;
    while j < loaded.len()
        invariant
            from <= j,
            forall|k: int| from <= k < j && k < loaded@.len() ==> id_set(*disabled).contains(
                #[trigger] loaded@[k].id@,
            ),
        decreases loaded@.len() - j,
    {
        if !id_set_contains(disabled, loaded[j].id.as_str()) {
            return Some(j);
        }
        j = j + 1;
    }
    None
}

/// The manifests of the add-on packages built into the host.
pub fn all_plugins() -> (r: Vec<PluginManifest>)
    ensures
        r@.len() == 1,
        crate::modules::storm_sewer::manifest::is_storm_manifest(r@[0]),
{
    vec![crate::modules::storm_sewer::manifest::manifest()]
}

} // verus!
