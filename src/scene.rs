//! Scene trees: the instances of a decoded scene file, and the search for the
//! scripts they hold.
use vstd::prelude::*;

verus! {

/// One instance of a scene: its name, its class, its source text if it has
/// one, and the positions of its children in the tree.
#[derive(Clone, Debug)]
pub struct SceneNode {
    pub name: String,
    pub class: String,
    pub source: Option<String>,
    pub children: Vec<usize>,
}

/// A scene: its instances, and the positions of the top-level ones. Children
/// are numbered after their parent; a child that is not is left out of
/// every search.
#[derive(Clone, Debug)]
pub struct SceneTree {
    pub nodes: Vec<SceneNode>,
    pub roots: Vec<usize>,
}

/// A script found by the search: the names from the top-level instance down
/// to the script's parent, and the script's position.
#[derive(Clone, Debug)]
pub struct ScriptHit {
    pub path: Vec<String>,
    pub node: usize,
}

/// The classes of script instances.
pub open spec fn script_class(class: Seq<char>) -> bool {
    class == "Script"@ || class == "LocalScript"@ || class == "ModuleScript"@
}

/// A hit as a path of names and a position.
pub open spec fn hit_view(h: ScriptHit) -> (Seq<String>, int) {
    (h.path@, h.node as int)
}

/// Whether `c` is a child of `i` that the search follows.
pub open spec fn followed(t: SceneTree, i: int, c: int) -> bool {
    i < c < t.nodes.len()
}

/// The scripts found below instance `i`, whose parents' names are `path`.
pub open spec fn hits_below(t: SceneTree, i: int, path: Seq<String>) -> Seq<(Seq<String>, int)>
    decreases t.nodes.len() - i, t.nodes@[i].children.len() + 1,
{
    if 0 <= i < t.nodes.len() {
        hits_among(t, i, 0, path.push(t.nodes@[i].name))
    } else {
        seq![]
    }
}

/// The scripts found among and below the children of `i` from the `k`-th
/// on, where `path` ends with the name of `i`: each child that is a script
/// is found, then the search goes on below it.
pub open spec fn hits_among(t: SceneTree, i: int, k: int, path: Seq<String>) -> Seq<
    (Seq<String>, int),
>
    decreases t.nodes.len() - i, t.nodes@[i].children.len() - k,
{
    if 0 <= i < t.nodes.len() && 0 <= k < t.nodes@[i].children.len() {
        let c = t.nodes@[i].children@[k] as int;
        let rest = hits_among(t, i, k + 1, path);
        if followed(t, i, c) {
            let here = if script_class(t.nodes@[c].class@) {
                seq![(path, c)]
            } else {
                seq![]
            };
            here + hits_below(t, c, path) + rest
        } else {
            rest
        }
    } else {
        seq![]
    }
}

/// The scripts found below the top-level instances from the `r`-th on.
pub open spec fn hits_from(t: SceneTree, r: int) -> Seq<(Seq<String>, int)>
    decreases t.roots.len() - r,
{
    if 0 <= r < t.roots.len() {
        hits_below(t, t.roots@[r] as int, seq![]) + hits_from(t, r + 1)
    } else {
        seq![]
    }
}

/// The names of `path` joined with dots.
pub open spec fn dotted(path: Seq<Seq<char>>) -> Seq<char>
    decreases path.len(),
{
    if path.len() == 0 {
        seq![]
    } else if path.len() == 1 {
        path[0]
    } else {
        dotted(path.drop_last()) + seq!['.'] + path.last()
    }
}

/// Whether a class is one of the script classes.
pub fn is_script_class(class: &str) -> (r: bool)
    ensures
        r == script_class(class@),
{
    let script = String::from_str("Script");
    let local = String::from_str("LocalScript");
    let module = String::from_str("ModuleScript");
    let c = String::from_str(class);
    c == script || c == local || c == module
}

/// Every script of the scene with the path of its parent, in the order of a
/// depth-first search over the top-level instances.
pub fn script_hits(t: &SceneTree) -> (r: Vec<ScriptHit>)
    ensures
        r@.map_values(|h: ScriptHit| hit_view(h)) == hits_from(*t, 0),
{
    let mut out: Vec<ScriptHit> = Vec::new();
    let empty: Vec<String> = Vec::new();
    let mut r: usize = 0;
    while r < t.roots.len()
        invariant
            r <= t.roots.len(),
            empty@ == Seq::<String>::empty(),
            out@.map_values(|h: ScriptHit| hit_view(h)) + hits_from(*t, r as int) == hits_from(
                *t,
                0,
            ),
        decreases t.roots.len() - r,
    {
        let ghost before = out@.map_values(|h: ScriptHit| hit_view(h));
        let i = t.roots[r];
        if i < t.nodes.len() {
            collect_below(t, i, &empty, &mut out);
        }
        assert(out@.map_values(|h: ScriptHit| hit_view(h)) =~= before + hits_below(
            *t,
            i as int,
            seq![],
        ));
        r = r + 1;
    }
    assert(out@.map_values(|h: ScriptHit| hit_view(h)) + hits_from(*t, r as int)
        =~= out@.map_values(|h: ScriptHit| hit_view(h)));
    out
}

/// A copy of `path`.
fn copy_path(path: &Vec<String>) -> (r: Vec<String>)
    ensures
        r@ == path@,
{
    let mut r: Vec<String> = Vec::new();
    for k in 0..path.len()
        invariant
            r@ == path@.take(k as int),
    {
        r.push(path[k].clone());
        assert(r@ =~= path@.take(k + 1));
    }
    assert(path@.take(path.len() as int) =~= path@);
    r
}

/// Appends the scripts found below instance `i` to `out`.
fn collect_below(t: &SceneTree, i: usize, path: &Vec<String>, out: &mut Vec<ScriptHit>)
    requires
        i < t.nodes.len(),
    ensures
        final(out)@.map_values(|h: ScriptHit| hit_view(h)) == old(out)@.map_values(
            |h: ScriptHit| hit_view(h),
        ) + hits_below(*t, i as int, path@),
    decreases t.nodes.len() - i,
{
    let ghost start = out@.map_values(|h: ScriptHit| hit_view(h));
    let mut here = copy_path(path);
    here.push(t.nodes[i].name.clone());
    let ghost p = here@;
    assert(p == path@.push(t.nodes@[i as int].name));
    let children = &t.nodes[i].children;
    let mut k: usize = 0;
    while k < children.len()
        invariant
            i < t.nodes.len(),
            children == &t.nodes@[i as int].children,
            here@ == p,
            k <= children.len(),
            out@.map_values(|h: ScriptHit| hit_view(h)) + hits_among(*t, i as int, k as int, p)
                == start + hits_among(*t, i as int, 0, p),
        decreases children.len() - k,
    {
        let ghost before = out@.map_values(|h: ScriptHit| hit_view(h));
        let c = children[k];
        if i < c && c < t.nodes.len() {
            if is_script_class(t.nodes[c].class.as_str()) {
                out.push(ScriptHit { path: copy_path(&here), node: c });
                assert(out@.map_values(|h: ScriptHit| hit_view(h)) =~= before + seq![
                    (p, c as int),
                ]);
            }
            let ghost mid = out@.map_values(|h: ScriptHit| hit_view(h));
            collect_below(t, c, &here, out);
            assert(out@.map_values(|h: ScriptHit| hit_view(h)) =~= mid + hits_below(
                *t,
                c as int,
                p,
            ));
        }
        k = k + 1;
    }
}

/// The names of `path` joined with dots.
pub fn join_path(path: &Vec<String>) -> (r: String)
    ensures
        r@ == dotted(path@.map_values(|s: String| s@)),
{
    let ghost names = path@.map_values(|s: String| s@);
    let mut r = String::new();
    let mut k: usize = 0;
    while k < path.len()
        invariant
            k <= path.len(),
            names == path@.map_values(|s: String| s@),
            r@ == dotted(names.take(k as int)),
        decreases path.len() - k,
    {
        if k > 0 {
            r.append(".");
        }
        r.append(path[k].as_str());
        proof {
            reveal_strlit(".");
            assert(names.take(k + 1).drop_last() =~= names.take(k as int));
            if k == 0 {
                assert(names.take(1) =~= seq![names[0]]);
            }
        }
        k = k + 1;
    }
    assert(names.take(path.len() as int) =~= names);
    r
}

/// A script's source text, with the dotted path of its parent.
#[derive(Clone, Debug)]
pub struct ScriptSource {
    pub path: String,
    pub source: String,
}

/// The names of a path.
pub open spec fn path_names(p: Seq<String>) -> Seq<Seq<char>> {
    p.map_values(|s: String| s@)
}

/// The last position in `entries` whose path has the names `p`, or -1.
pub open spec fn entry_of(entries: Seq<(Seq<String>, int)>, p: Seq<Seq<char>>) -> int
    decreases entries.len(),
{
    if entries.len() == 0 {
        -1
    } else if path_names(entries.last().0) == p {
        entries.len() - 1
    } else {
        entry_of(entries.drop_last(), p)
    }
}

/// The hits with one entry per parent path, in the order the paths are first
/// found; a later hit on a path replaces the earlier one.
pub open spec fn latest_by_path(hs: Seq<(Seq<String>, int)>) -> Seq<(Seq<String>, int)>
    decreases hs.len(),
{
    if hs.len() == 0 {
        seq![]
    } else {
        let acc = latest_by_path(hs.drop_last());
        let j = entry_of(acc, path_names(hs.last().0));
        if j >= 0 {
            acc.update(j, hs.last())
        } else {
            acc.push(hs.last())
        }
    }
}

/// The dotted paths and source texts of the entries whose script has a
/// source text.
pub open spec fn sources_of(t: SceneTree, es: Seq<(Seq<String>, int)>) -> Seq<
    (Seq<char>, Seq<char>),
>
    decreases es.len(),
{
    if es.len() == 0 {
        seq![]
    } else {
        let rest = sources_of(t, es.drop_last());
        let node = es.last().1;
        if 0 <= node < t.nodes.len() && t.nodes@[node].source is Some {
            rest.push((dotted(path_names(es.last().0)), t.nodes@[node].source->0@))
        } else {
            rest
        }
    }
}

/// Whether two paths have the same names.
fn same_path(a: &Vec<String>, b: &Vec<String>) -> (r: bool)
    ensures
        r == (path_names(a@) == path_names(b@)),
{
    if a.len() != b.len() {
        assert(path_names(a@).len() != path_names(b@).len());
        return false;
    }
    for k in 0..a.len()
        invariant
            a.len() == b.len(),
            forall|q: int| 0 <= q < k ==> a@[q]@ == #[trigger] b@[q]@,
    {
        if a[k] != b[k] {
            assert(path_names(a@)[k as int] != path_names(b@)[k as int]);
            return false;
        }
    }
    assert(path_names(a@) =~= path_names(b@));
    true
}

/// Where the entry for path `p` stands in `entries`, if there is one.
fn find_entry(entries: &Vec<ScriptHit>, p: &Vec<String>) -> (r: Option<usize>)
    ensures
        r is Some ==> r->0 < entries.len(),
        r is Some ==> r->0 as int == entry_of(
            entries@.map_values(|h: ScriptHit| hit_view(h)),
            path_names(p@),
        ),
        r is None ==> entry_of(entries@.map_values(|h: ScriptHit| hit_view(h)), path_names(p@))
            == -1,
{
    let ghost es = entries@.map_values(|h: ScriptHit| hit_view(h));
    let mut j: usize = entries.len();
    assert(es.take(j as int) =~= es);
    while j > 0
        invariant
            j <= entries.len(),
            es == entries@.map_values(|h: ScriptHit| hit_view(h)),
            entry_of(es.take(j as int), path_names(p@)) == entry_of(es, path_names(p@)),
        decreases j,
    {
        j = j - 1;
        assert(es.take(j + 1).drop_last() =~= es.take(j as int));
        if same_path(&entries[j].path, p) {
            return Some(j);
        }
    }
    None
}

/// One entry per parent path, the later hit on a path replacing the earlier.
fn latest_hits(hits: &Vec<ScriptHit>) -> (r: Vec<ScriptHit>)
    ensures
        r@.map_values(|h: ScriptHit| hit_view(h)) == latest_by_path(
            hits@.map_values(|h: ScriptHit| hit_view(h)),
        ),
{
    let ghost hs = hits@.map_values(|h: ScriptHit| hit_view(h));
    let mut acc: Vec<ScriptHit> = Vec::new();
    for k in 0..hits.len()
        invariant
            hs == hits@.map_values(|h: ScriptHit| hit_view(h)),
            acc@.map_values(|h: ScriptHit| hit_view(h)) == latest_by_path(hs.take(k as int)),
    {
        let ghost before = acc@.map_values(|h: ScriptHit| hit_view(h));
        assert(hs.take(k + 1).drop_last() =~= hs.take(k as int));
        let hit = ScriptHit { path: copy_path(&hits[k].path), node: hits[k].node };
        match find_entry(&acc, &hits[k].path) {
            Some(j) => {
                acc.set(j, hit);
                assert(acc@.map_values(|h: ScriptHit| hit_view(h)) =~= before.update(
                    j as int,
                    hs[k as int],
                ));
            },
            None => {
                acc.push(hit);
                assert(acc@.map_values(|h: ScriptHit| hit_view(h)) =~= before.push(hs[k as int]));
            },
        }
    }
    assert(hs.take(hits.len() as int) =~= hs);
    acc
}

/// The source text of each script, with the dotted path of its parent: one
/// per parent path, where a later script under a path replaces an earlier
/// one, and scripts without source text are left out.
pub fn script_sources(t: &SceneTree) -> (r: Vec<ScriptSource>)
    ensures
        r@.map_values(|s: ScriptSource| (s.path@, s.source@)) == sources_of(
            *t,
            latest_by_path(hits_from(*t, 0)),
        ),
{
    let hits = script_hits(t);
    let latest = latest_hits(&hits);
    let ghost es = latest@.map_values(|h: ScriptHit| hit_view(h));
    let mut out: Vec<ScriptSource> = Vec::new();
    for k in 0..latest.len()
        invariant
            es == latest@.map_values(|h: ScriptHit| hit_view(h)),
            out@.map_values(|s: ScriptSource| (s.path@, s.source@)) == sources_of(
                *t,
                es.take(k as int),
            ),
    {
        let ghost before = out@.map_values(|s: ScriptSource| (s.path@, s.source@));
        assert(es.take(k + 1).drop_last() =~= es.take(k as int));
        let node = latest[k].node;
        if node < t.nodes.len() {
            match &t.nodes[node].source {
                Some(src) => {
                    let path = join_path(&latest[k].path);
                    out.push(ScriptSource { path, source: src.clone() });
                    assert(out@.map_values(|s: ScriptSource| (s.path@, s.source@)) =~= before.push(
                        (dotted(path_names(es[k as int].0)), src@),
                    ));
                },
                None => {},
            }
        }
    }
    assert(es.take(latest.len() as int) =~= es);
    out
}

} // verus!
