//! Project detection: walks a directory tree and classifies each directory
//! as the root of a project of some tool's kind if one of that tool's
//! marker files lies directly inside it. Hidden directories (name starting
//! with a dot) and explicitly excluded names are skipped entirely — not
//! recursed into, not classified — except that a scan root's children are
//! always searched: the operator pointed the scan there. Marker tests run
//! in catalog order and stop at the first tool that matches, so a
//! directory is claimed by at most one tool. A directory that is itself a
//! project is still searched for nested projects.

use vstd::prelude::*;
use crate::cmd::Cmd;
use crate::fs_data::FsNode;

verus! {

broadcast use
    vstd::seq::group_seq_axioms,
    vstd::std_specs::vec::group_vec_axioms,
    vstd::string::axiom_spec_iter,
    vstd::string::next_postcondition,
;

/// A detected project: where it lies and which tool claims it.
pub struct DetectedProject {
    pub path: String,
    pub cmd_name: String,
}

/// A name beginning with the hidden marker character.
pub open spec fn is_hidden(name: Seq<char>) -> bool {
    name.len() > 0 && name[0] == '.'
}

/// Membership of a name in the excluded-directory set.
pub open spec fn is_excluded(name: Seq<char>, exclude: Seq<String>) -> bool {
    exists|i: int| 0 <= i < exclude.len() && exclude[i]@ == name
}

/// A directory with this name is neither classified nor recursed into.
pub open spec fn is_skipped(name: Seq<char>, exclude: Seq<String>) -> bool {
    is_hidden(name) || is_excluded(name, exclude)
}

/// The name a node was listed under, whatever its kind.
pub open spec fn node_name(n: FsNode) -> Seq<char> {
    match n {
        FsNode::File { name, .. } => name@,
        FsNode::Dir { name, .. } => name@,
    }
}

/// Whether some direct child of a directory is listed under name `f`.
pub open spec fn has_child_named(children: Seq<FsNode>, f: Seq<char>) -> bool {
    exists|i: int| 0 <= i < children.len() && node_name(children[i]) == f
}

/// Whether one of a tool's marker files lies directly among `children`.
pub open spec fn cmd_matches(children: Seq<FsNode>, c: Cmd) -> bool {
    exists|j: int| 0 <= j < c.related_files@.len() && has_child_named(
        children,
        c.related_files@[j]@,
    )
}

fn name_is_hidden(name: &String) -> (r: bool)
    ensures
        r == is_hidden(name@),
{
    let s: &str = name.as_str();
    let mut it = s.chars();
    match it.next() {
        Some(c) => c == '.',
        None => false,
    }
}

fn name_is_excluded(name: &String, exclude: &Vec<String>) -> (r: bool)
    ensures
        r == is_excluded(name@, exclude@),
{
    let mut i: usize = 0;
    while i < exclude.len()
        invariant
            0 <= i <= exclude.len(),
            forall|k: int| 0 <= k < i ==> exclude@[k]@ != name@,
        decreases exclude.len() - i,
    {
        if exclude[i] == *name {
            return true;
        }
        i = i + 1;
    }
    false
}

fn has_child(children: &Vec<FsNode>, f: &String) -> (r: bool)
    ensures
        r == has_child_named(children@, f@),
{
    let mut i: usize = 0;
    while i < children.len()
        invariant
            0 <= i <= children.len(),
            forall|k: int| 0 <= k < i ==> node_name(children@[k]) != f@,
        decreases children.len() - i,
    {
        let found = match &children[i] {
            FsNode::File { name, .. } => *name == *f,
            FsNode::Dir { name, .. } => *name == *f,
        };
        if found {
            return true;
        }
        i = i + 1;
    }
    false
}

/// The tool that claims a directory with these direct children: the first
/// command, in catalog order, one of whose marker files is present.
pub open spec fn spec_classify(children: Seq<FsNode>, commands: Seq<Cmd>) -> Option<int>
    decreases commands,
{
    if commands.len() == 0 {
        None
    } else if cmd_matches(children, commands[0]) {
        Some(0int)
    } else {
        match spec_classify(children, commands.drop_first()) {
            Some(k) => Some(k + 1),
            None => None,
        }
    }
}

proof fn lemma_classify_at(children: Seq<FsNode>, commands: Seq<Cmd>, k: int)
    requires
        0 <= k < commands.len(),
        cmd_matches(children, commands[k]),
        forall|m: int| 0 <= m < k ==> !cmd_matches(children, commands[m]),
    ensures
        spec_classify(children, commands) == Some(k),
    decreases k,
{
    if k > 0 {
        lemma_classify_at(children, commands.drop_first(), k - 1);
    }
}

proof fn lemma_classify_none(children: Seq<FsNode>, commands: Seq<Cmd>)
    requires
        forall|m: int| 0 <= m < commands.len() ==> !cmd_matches(children, commands[m]),
    ensures
        spec_classify(children, commands) is None,
    decreases commands.len(),
{
    if commands.len() > 0 {
        lemma_classify_none(children, commands.drop_first());
    }
}

/// Tests each command's marker files in catalog order against the direct
/// children of a directory; the first command with a marker present claims
/// the directory, and no later command is considered.
pub fn classify_dir(children: &Vec<FsNode>, commands: &Vec<Cmd>) -> (r: Option<usize>)
    ensures
        r matches Some(k) ==> 0 <= k < commands@.len() && cmd_matches(children@, commands@[k as int])
            && (forall|m: int| 0 <= m < k ==> !cmd_matches(children@, commands@[m])),
        r is None ==> forall|m: int|
            0 <= m < commands@.len() ==> !cmd_matches(children@, commands@[m]),
        r matches Some(k) ==> spec_classify(children@, commands@) == Some(k as int),
        r is None ==> spec_classify(children@, commands@) is None,
{
    let mut k: usize = 0;
    while k < commands.len()
        invariant
            0 <= k <= commands.len(),
            forall|m: int| 0 <= m < k ==> !cmd_matches(children@, commands@[m]),
        decreases commands.len() - k,
    {
        let files = &commands[k].related_files;
        let mut j: usize = 0;
        while j < files.len()
            invariant
                0 <= j <= files.len(),
                files == &commands@[k as int].related_files,
                0 <= k < commands.len(),
                forall|m: int| 0 <= m < k ==> !cmd_matches(children@, commands@[m]),
                forall|jj: int| 0 <= jj < j ==> !has_child_named(children@, files@[jj]@),
            decreases files.len() - j,
        {
            if has_child(children, &files[j]) {
                proof {
                    assert(cmd_matches(children@, commands@[k as int]));
                    lemma_classify_at(children@, commands@, k as int);
                }
                return Some(k);
            }
            j = j + 1;
        }
        proof {
            assert(!cmd_matches(children@, commands@[k as int]));
        }
        k = k + 1;
    }
    proof {
        lemma_classify_none(children@, commands@);
    }
    None
}

/// The projects detected under a sequence of sibling nodes, in traversal
/// order, as (directory path, claiming command name) pairs.
pub open spec fn spec_detect_forest(
    nodes: Seq<FsNode>,
    commands: Seq<Cmd>,
    exclude: Seq<String>,
) -> Seq<(Seq<char>, Seq<char>)>
    decreases nodes,
{
    if nodes.len() == 0 {
        Seq::empty()
    } else {
        spec_detect_node(nodes[0], commands, exclude) + spec_detect_forest(
            nodes.drop_first(),
            commands,
            exclude,
        )
    }
}

/// The projects detected at and under one node. A skipped directory
/// contributes nothing at all; a claimed directory contributes itself and
/// is still searched for nested projects.
pub open spec fn spec_detect_node(n: FsNode, commands: Seq<Cmd>, exclude: Seq<String>) -> Seq<
    (Seq<char>, Seq<char>),
>
    decreases n,
{
    match n {
        FsNode::File { .. } => Seq::empty(),
        FsNode::Dir { name, path, children } => {
            if is_skipped(name@, exclude) {
                Seq::empty()
            } else {
                (match spec_classify(children@, commands) {
                    Some(k) => seq![(path@, commands[k].name@)],
                    None => Seq::empty(),
                }) + spec_detect_forest(children@, commands, exclude)
            }
        },
    }
}

/// A hidden or excluded directory is neither returned nor recursed into:
/// it and everything beneath it contribute nothing to detection.
pub proof fn lemma_detect_skips_hidden_and_excluded(
    n: FsNode,
    commands: Seq<Cmd>,
    exclude: Seq<String>,
)
    requires
        n matches FsNode::Dir { name, .. } && is_skipped(name@, exclude),
    ensures
        spec_detect_node(n, commands, exclude) == Seq::<(Seq<char>, Seq<char>)>::empty(),
{
}

/// A directory that is itself claimed as a project is still searched for
/// nested projects: its own entry is followed by everything detected
/// among its children.
pub proof fn lemma_detect_inspects_children_of_projects(
    n: FsNode,
    commands: Seq<Cmd>,
    exclude: Seq<String>,
)
    requires
        n matches FsNode::Dir { name, path, children } && !is_skipped(name@, exclude)
            && spec_classify(children@, commands) is Some,
    ensures
        spec_detect_node(n, commands, exclude) == seq![
            (n->Dir_path@, commands[spec_classify(n->Dir_children@, commands)->Some_0].name@),
        ] + spec_detect_forest(n->Dir_children@, commands, exclude),
{
}

proof fn lemma_detect_forest_take_succ(
    nodes: Seq<FsNode>,
    commands: Seq<Cmd>,
    exclude: Seq<String>,
    i: int,
)
    requires
        0 <= i < nodes.len(),
    ensures
        spec_detect_forest(nodes.take(i + 1), commands, exclude) == spec_detect_forest(
            nodes.take(i),
            commands,
            exclude,
        ) + spec_detect_node(nodes[i], commands, exclude),
    decreases i,
{
    if i == 0 {
        assert(nodes.take(1).drop_first() =~= nodes.take(0));
        assert(nodes.take(1)[0] == nodes[0]);
        assert(spec_detect_forest(nodes.take(0), commands, exclude) =~= Seq::empty());
        assert(spec_detect_forest(nodes.take(1), commands, exclude) =~= spec_detect_node(
            nodes[0],
            commands,
            exclude,
        ));
    } else {
        let t = nodes.drop_first();
        assert(nodes.take(i + 1).drop_first() =~= t.take(i));
        assert(nodes.take(i).drop_first() =~= t.take(i - 1));
        assert(nodes.take(i + 1)[0] == nodes[0]);
        assert(nodes.take(i)[0] == nodes[0]);
        lemma_detect_forest_take_succ(t, commands, exclude, i - 1);
        assert(t[i - 1] == nodes[i]);
        assert(spec_detect_forest(nodes.take(i + 1), commands, exclude) =~= spec_detect_forest(
            nodes.take(i),
            commands,
            exclude,
        ) + spec_detect_node(nodes[i], commands, exclude));
    }
}

fn detect_into(
    nodes: &Vec<FsNode>,
    commands: &Vec<Cmd>,
    exclude: &Vec<String>,
    out: &mut Vec<DetectedProject>,
)
    ensures
        final(out)@.len() == old(out)@.len() + spec_detect_forest(
            nodes@,
            commands@,
            exclude@,
        ).len(),
        forall|i: int|
            0 <= i < old(out)@.len() ==> final(out)@[i] == old(out)@[i],
        forall|i: int|
            old(out)@.len() <= i < final(out)@.len() ==> {
                let d = spec_detect_forest(nodes@, commands@, exclude@)[i - old(out)@.len()];
                (#[trigger] final(out)@[i]).path@ == d.0 && final(out)@[i].cmd_name@ == d.1
            },
    decreases nodes,
{
    let ghost out0 = out@;
    let ghost full = spec_detect_forest(nodes@, commands@, exclude@);
    let mut i: usize = 0;
    while i < nodes.len()
        invariant
            0 <= i <= nodes.len(),
            out@.len() == out0.len() + spec_detect_forest(
                nodes@.take(i as int),
                commands@,
                exclude@,
            ).len(),
            forall|q: int| 0 <= q < out0.len() ==> out@[q] == out0[q],
            forall|q: int|
                out0.len() <= q < out@.len() ==> {
                    let d = spec_detect_forest(nodes@.take(i as int), commands@, exclude@)[q
                        - out0.len()];
                    (#[trigger] out@[q]).path@ == d.0 && out@[q].cmd_name@ == d.1
                },
        decreases nodes.len() - i,
    {
        proof {
            lemma_detect_forest_take_succ(nodes@, commands@, exclude@, i as int);
        }
        match &nodes[i] {
            FsNode::File { .. } => {},
            FsNode::Dir { name, path, children } => {
                if !name_is_hidden(name) && !name_is_excluded(name, exclude) {
                    match classify_dir(children, commands) {
                        Some(k) => {
                            out.push(
                                DetectedProject {
                                    path: path.clone(),
                                    cmd_name: commands[k].name.clone(),
                                },
                            );
                        },
                        None => {},
                    }
                    detect_into(children, commands, exclude, out);
                }
            },
        }
        i = i + 1;
    }
    proof {
        assert(nodes@.take(nodes@.len() as int) =~= nodes@);
    }
}

/// The projects detected at and under one scan root. The root is where
/// the operator pointed the scan, so its children are always searched,
/// whatever the root's own name; the root itself is classified only if
/// its name is neither hidden nor excluded.
pub open spec fn spec_detect_root(n: FsNode, commands: Seq<Cmd>, exclude: Seq<String>) -> Seq<
    (Seq<char>, Seq<char>),
> {
    match n {
        FsNode::File { .. } => Seq::empty(),
        FsNode::Dir { name, path, children } => {
            (if !is_skipped(name@, exclude) {
                match spec_classify(children@, commands) {
                    Some(k) => seq![(path@, commands[k].name@)],
                    None => Seq::empty(),
                }
            } else {
                Seq::empty()
            }) + spec_detect_forest(children@, commands, exclude)
        },
    }
}

/// The projects detected under a sequence of scan roots, in order.
pub open spec fn spec_detect_roots(
    nodes: Seq<FsNode>,
    commands: Seq<Cmd>,
    exclude: Seq<String>,
) -> Seq<(Seq<char>, Seq<char>)>
    decreases nodes,
{
    if nodes.len() == 0 {
        Seq::empty()
    } else {
        spec_detect_root(nodes[0], commands, exclude) + spec_detect_roots(
            nodes.drop_first(),
            commands,
            exclude,
        )
    }
}

proof fn lemma_detect_roots_take_succ(
    nodes: Seq<FsNode>,
    commands: Seq<Cmd>,
    exclude: Seq<String>,
    i: int,
)
    requires
        0 <= i < nodes.len(),
    ensures
        spec_detect_roots(nodes.take(i + 1), commands, exclude) == spec_detect_roots(
            nodes.take(i),
            commands,
            exclude,
        ) + spec_detect_root(nodes[i], commands, exclude),
    decreases i,
{
    if i == 0 {
        assert(nodes.take(1).drop_first() =~= nodes.take(0));
        assert(nodes.take(1)[0] == nodes[0]);
        assert(spec_detect_roots(nodes.take(0), commands, exclude) =~= Seq::empty());
        assert(spec_detect_roots(nodes.take(1), commands, exclude) =~= spec_detect_root(
            nodes[0],
            commands,
            exclude,
        ));
    } else {
        let t = nodes.drop_first();
        assert(nodes.take(i + 1).drop_first() =~= t.take(i));
        assert(nodes.take(i).drop_first() =~= t.take(i - 1));
        assert(nodes.take(i + 1)[0] == nodes[0]);
        assert(nodes.take(i)[0] == nodes[0]);
        lemma_detect_roots_take_succ(t, commands, exclude, i - 1);
        assert(t[i - 1] == nodes[i]);
        assert(spec_detect_roots(nodes.take(i + 1), commands, exclude) =~= spec_detect_roots(
            nodes.take(i),
            commands,
            exclude,
        ) + spec_detect_root(nodes[i], commands, exclude));
    }
}

/// Detects every project under the given scan roots: for each directory
/// encountered below a root (skipping hidden and excluded ones
/// entirely), the first command one of whose marker files lies directly
/// inside it claims it, and its children are searched for nested
/// projects either way. A root's own children are always searched — the
/// operator pointed the scan there — though a hidden or excluded root is
/// itself never classified. The result lists (path, command name) pairs
/// in traversal order.
pub fn detect_forest(nodes: &Vec<FsNode>, commands: &Vec<Cmd>, exclude: &Vec<String>) -> (r: Vec<
    DetectedProject,
>)
    ensures
        r@.len() == spec_detect_roots(nodes@, commands@, exclude@).len(),
        forall|i: int|
            0 <= i < r@.len() ==> {
                let d = spec_detect_roots(nodes@, commands@, exclude@)[i];
                (#[trigger] r@[i]).path@ == d.0 && r@[i].cmd_name@ == d.1
            },
{
    let mut out: Vec<DetectedProject> = Vec::new();
    let mut i: usize = 0;
    while i < nodes.len()
        invariant
            0 <= i <= nodes.len(),
            out@.len() == spec_detect_roots(nodes@.take(i as int), commands@, exclude@).len(),
            forall|q: int|
                0 <= q < out@.len() ==> {
                    let d = spec_detect_roots(nodes@.take(i as int), commands@, exclude@)[q];
                    (#[trigger] out@[q]).path@ == d.0 && out@[q].cmd_name@ == d.1
                },
        decreases nodes.len() - i,
    {
        proof {
            lemma_detect_roots_take_succ(nodes@, commands@, exclude@, i as int);
        }
        match &nodes[i] {
            FsNode::File { .. } => {},
            FsNode::Dir { name, path, children } => {
                if !name_is_hidden(name) && !name_is_excluded(name, exclude) {
                    match classify_dir(children, commands) {
                        Some(k) => {
                            out.push(
                                DetectedProject {
                                    path: path.clone(),
                                    cmd_name: commands[k].name.clone(),
                                },
                            );
                        },
                        None => {},
                    }
                }
                detect_into(children, commands, exclude, &mut out);
            },
        }
        i = i + 1;
    }
    proof {
        assert(nodes@.take(nodes@.len() as int) =~= nodes@);
    }
    out
}

} // verus!
