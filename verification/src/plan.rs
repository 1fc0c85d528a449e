use vstd::prelude::*;

use crate::parse::join_path;
use crate::types::{dir_view, entry_view, entry_views, file_view, DirV, EntryV, FileV,
    HapiDirectory, HapiEntry, HapiFile};

verus! {

// Extracting a directory materializes its subtree at a destination: one
// directory to create for every directory node, one file to decode and
// write for every file node, each at the node's path relative to the
// directory being extracted. The plan lists those actions in traversal
// order; a collaborator that performs filesystem work executes it.

/// One step of an extraction: create a directory, or decode a file into
/// a destination path. Paths are relative to the extraction destination.
#[derive(Debug)]
pub enum HapiPlanStep {
    MakeDir { path: String },
    WriteFile { path: String, file: HapiFile },
}

/// The mathematical shape of a plan step.
pub enum PlanStepV {
    MakeDir { path: Seq<char> },
    WriteFile { path: Seq<char>, file: FileV },
}

/// The shape of a plan step value.
pub open spec fn plan_step_view(s: HapiPlanStep) -> PlanStepV {
    match s {
        HapiPlanStep::MakeDir { path } => PlanStepV::MakeDir { path: path@ },
        HapiPlanStep::WriteFile { path, file } => PlanStepV::WriteFile {
            path: path@,
            file: file_view(file),
        },
    }
}

impl View for HapiPlanStep {
    type V = PlanStepV;

    open spec fn view(&self) -> PlanStepV {
        plan_step_view(*self)
    }
}

/// The shapes of a sequence of plan steps.
pub open spec fn plan_views(s: Seq<HapiPlanStep>) -> Seq<PlanStepV> {
    Seq::new(s.len(), |i: int| plan_step_view(s[i]))
}

/// A destination-relative path: just the name at the top of the
/// extracted tree, the prefix and a separator below it.
pub open spec fn plan_join(prefix: Seq<char>, name: Seq<char>) -> Seq<char> {
    if prefix.len() == 0 {
        name
    } else {
        prefix + "/"@ + name
    }
}

/// The steps that extract one entry under the given relative prefix: a
/// file becomes one write; a directory becomes its creation followed by
/// the steps for everything under it.
pub open spec fn plan_of_entry(e: EntryV, prefix: Seq<char>) -> Seq<PlanStepV>
    decreases e,
{
    match e {
        EntryV::File(f) => seq![
            PlanStepV::WriteFile { path: plan_join(prefix, f.name), file: f },
        ],
        EntryV::Directory(d) => seq![PlanStepV::MakeDir { path: plan_join(prefix, d.name) }]
            + plan_of_entries(d.entries, plan_join(prefix, d.name)),
    }
}

/// The steps that extract a row of entries, in stored order.
pub open spec fn plan_of_entries(s: Seq<EntryV>, prefix: Seq<char>) -> Seq<PlanStepV>
    decreases s,
{
    if s.len() == 0 {
        Seq::empty()
    } else {
        plan_of_entry(s[0], prefix) + plan_of_entries(s.drop_first(), prefix)
    }
}

/// Every node under `parent` records as its path its parent's path
/// joined with its own name; the directory parser builds trees this way,
/// accumulation being strictly additive.
pub open spec fn entry_wf(e: EntryV, parent: Seq<char>) -> bool
    decreases e,
{
    match e {
        EntryV::File(f) => f.path == join_path(parent, f.name),
        EntryV::Directory(d) => d.path == join_path(parent, d.name) && entries_wf(
            d.entries,
            d.path,
        ),
    }
}

/// `entry_wf` over a row of entries.
pub open spec fn entries_wf(s: Seq<EntryV>, parent: Seq<char>) -> bool
    decreases s,
{
    s.len() == 0 || (entry_wf(s[0], parent) && entries_wf(s.drop_first(), parent))
}

/// Every name in the subtree is nonempty.
pub open spec fn entry_names_ok(e: EntryV) -> bool
    decreases e,
{
    match e {
        EntryV::File(f) => f.name.len() > 0,
        EntryV::Directory(d) => d.name.len() > 0 && entries_names_ok(d.entries),
    }
}

/// `entry_names_ok` over a row of entries.
pub open spec fn entries_names_ok(s: Seq<EntryV>) -> bool
    decreases s,
{
    s.len() == 0 || (entry_names_ok(s[0]) && entries_names_ok(s.drop_first()))
}

/// The same walk as the plan, but labelling each step with the node's
/// full recorded archive path instead of a destination-relative one.
pub open spec fn abs_plan_of_entry(e: EntryV) -> Seq<PlanStepV>
    decreases e,
{
    match e {
        EntryV::File(f) => seq![PlanStepV::WriteFile { path: f.path, file: f }],
        EntryV::Directory(d) => seq![PlanStepV::MakeDir { path: d.path }] + abs_plan_of_entries(
            d.entries,
        ),
    }
}

/// `abs_plan_of_entry` over a row of entries.
pub open spec fn abs_plan_of_entries(s: Seq<EntryV>) -> Seq<PlanStepV>
    decreases s,
{
    if s.len() == 0 {
        Seq::empty()
    } else {
        abs_plan_of_entry(s[0]) + abs_plan_of_entries(s.drop_first())
    }
}

/// `base` with a relative path under it; the path itself when the
/// relative part is empty.
pub open spec fn under(base: Seq<char>, rel: Seq<char>) -> Seq<char> {
    if rel.len() == 0 {
        base
    } else {
        base + "/"@ + rel
    }
}

/// Two plan steps describe the same action when they make the same kind
/// of node, carry the same file, and the recorded path is the relative
/// one rooted at `base`.
pub open spec fn step_matches(a: PlanStepV, r: PlanStepV, base: Seq<char>) -> bool {
    match (a, r) {
        (PlanStepV::MakeDir { path: ap }, PlanStepV::MakeDir { path: rp }) => ap == base + "/"@
            + rp,
        (
            PlanStepV::WriteFile { path: ap, file: f },
            PlanStepV::WriteFile { path: rp, file: g },
        ) => f == g && ap == base + "/"@ + rp,
        _ => false,
    }
}

proof fn lemma_plan_entry_matches(e: EntryV, parent: Seq<char>, base: Seq<char>, q: Seq<char>)
    requires
        entry_wf(e, parent),
        entry_names_ok(e),
        parent == under(base, q),
    ensures
        abs_plan_of_entry(e).len() == plan_of_entry(e, q).len(),
        forall|i: int|
            0 <= i < abs_plan_of_entry(e).len() ==> step_matches(
                #[trigger] abs_plan_of_entry(e)[i],
                plan_of_entry(e, q)[i],
                base,
            ),
    decreases e,
{
    match e {
        EntryV::File(f) => {
            if q.len() == 0 {
                assert(f.path == base + "/"@ + plan_join(q, f.name));
            } else {
                assert((base + "/"@ + q) + "/"@ + f.name =~= base + "/"@ + (q + "/"@ + f.name));
            }
        },
        EntryV::Directory(d) => {
            let q2 = plan_join(q, d.name);
            if q.len() == 0 {
                assert(d.path == base + "/"@ + q2);
            } else {
                assert((base + "/"@ + q) + "/"@ + d.name =~= base + "/"@ + (q + "/"@ + d.name));
            }
            assert(d.path == under(base, q2));
            lemma_plan_entries_matches(d.entries, d.path, base, q2);
            let a = abs_plan_of_entry(e);
            let r = plan_of_entry(e, q);
            assert forall|i: int| 0 <= i < a.len() implies step_matches(
                #[trigger] a[i],
                r[i],
                base,
            ) by {
                if i > 0 {
                    assert(a[i] == abs_plan_of_entries(d.entries)[i - 1]);
                    assert(r[i] == plan_of_entries(d.entries, q2)[i - 1]);
                }
            }
        },
    }
}

proof fn lemma_plan_entries_matches(s: Seq<EntryV>, parent: Seq<char>, base: Seq<char>, q: Seq<
    char,
>)
    requires
        entries_wf(s, parent),
        entries_names_ok(s),
        parent == under(base, q),
    ensures
        abs_plan_of_entries(s).len() == plan_of_entries(s, q).len(),
        forall|i: int|
            0 <= i < abs_plan_of_entries(s).len() ==> step_matches(
                #[trigger] abs_plan_of_entries(s)[i],
                plan_of_entries(s, q)[i],
                base,
            ),
    decreases s,
{
    if s.len() > 0 {
        lemma_plan_entry_matches(s[0], parent, base, q);
        lemma_plan_entries_matches(s.drop_first(), parent, base, q);
        let a = abs_plan_of_entries(s);
        let r = plan_of_entries(s, q);
        let h = abs_plan_of_entry(s[0]).len() as int;
        assert forall|i: int| 0 <= i < a.len() implies step_matches(#[trigger] a[i], r[i], base) by {
            if i < h {
                assert(a[i] == abs_plan_of_entry(s[0])[i]);
                assert(r[i] == plan_of_entry(s[0], q)[i]);
            } else {
                assert(a[i] == abs_plan_of_entries(s.drop_first())[i - h]);
                assert(r[i] == plan_of_entries(s.drop_first(), q)[i - h]);
            }
        }
    }
}

/// Extraction follows the recorded tree exactly: the plan for a
/// directory has one directory-creation step per directory node and one
/// file-write step per file node, in traversal order — directory-only
/// nodes create no files — and rooting each step's destination-relative
/// path at the directory's own path gives exactly the node's recorded
/// archive path. Stated for trees whose entry names are nonempty; an
/// empty name would collapse a path segment on the destination.
pub proof fn lemma_plan_matches_tree(d: DirV)
    requires
        entries_wf(d.entries, d.path),
        entries_names_ok(d.entries),
    ensures
        abs_plan_of_entries(d.entries).len() == plan_of_entries(d.entries, Seq::empty()).len(),
        forall|i: int|
            0 <= i < abs_plan_of_entries(d.entries).len() ==> step_matches(
                #[trigger] abs_plan_of_entries(d.entries)[i],
                plan_of_entries(d.entries, Seq::empty())[i],
                d.path,
            ),
{
    lemma_plan_entries_matches(d.entries, d.path, d.path, Seq::empty());
}

/// Copies a file entry; the copy has the same shape.
fn clone_file(f: &HapiFile) -> (r: HapiFile)
    ensures
        file_view(r) == file_view(*f),
{
    HapiFile {
        path: f.path.clone(),
        name: f.name.clone(),
        contents_offset: f.contents_offset,
        extracted_size: f.extracted_size,
        compression: f.compression,
    }
}

/// Joins a relative prefix and a name as `plan_join` says.
fn pjoin(prefix: &String, name: &String) -> (r: String)
    ensures
        r@ == plan_join(prefix@, name@),
{
    if prefix.as_str().is_empty() {
        name.clone()
    } else {
        let mut s = prefix.clone();
        s.append("/");
        s.append(name.as_str());
        s
    }
}

/// Appends the steps that extract `e` under `prefix`.
fn plan_entry(e: &HapiEntry, prefix: &String, out: &mut Vec<HapiPlanStep>)
    ensures
        plan_views(final(out)@) == plan_views(old(out)@) + plan_of_entry(entry_view(*e), prefix@),
    decreases *e,
{
    let ghost out0 = out@;
    match e {
        HapiEntry::File(f) => {
            let path = pjoin(prefix, &f.name);
            out.push(HapiPlanStep::WriteFile { path, file: clone_file(f) });
            proof {
                assert(plan_views(out@) =~= plan_views(out0) + plan_of_entry(
                    entry_view(*e),
                    prefix@,
                ));
            }
        },
        HapiEntry::Directory(d) => {
            let path = pjoin(prefix, &d.name);
            let sub = path.clone();
            out.push(HapiPlanStep::MakeDir { path });
            proof {
                assert(plan_views(out@) =~= plan_views(out0).push(
                    PlanStepV::MakeDir { path: plan_join(prefix@, d.name@) },
                ));
            }
            plan_entries(&d.contents, &sub, out);
            proof {
                assert(plan_views(out@) =~= plan_views(out0) + plan_of_entry(
                    entry_view(*e),
                    prefix@,
                ));
            }
        },
    }
}

/// Appends the steps that extract each of `entries` under `prefix`, in
/// stored order.
fn plan_entries(entries: &Vec<HapiEntry>, prefix: &String, out: &mut Vec<HapiPlanStep>)
    ensures
        plan_views(final(out)@) == plan_views(old(out)@) + plan_of_entries(
            entry_views(entries@),
            prefix@,
        ),
    decreases *entries,
{
    let ghost s = entry_views(entries@);
    let ghost out0 = out@;
    let n = entries.len();
    let mut i: usize = 0;
    proof {
        crate::types::lemma_entry_views(entries@);
        assert(s.skip(0) =~= s);
        assert(plan_views(out@) + plan_of_entries(s, prefix@) =~= plan_views(out0)
            + plan_of_entries(s, prefix@));
    }
    while i < n
        invariant
            n == entries@.len(),
            i <= n,
            s == entry_views(entries@),
            s.len() == n,
            forall|j: int| 0 <= j < n ==> s[j] == entry_view(entries@[j]),
            prefix@ == prefix@,
            plan_views(out@) + plan_of_entries(s.skip(i as int), prefix@) == plan_views(out0)
                + plan_of_entries(s, prefix@),
        decreases n - i,
    {
        proof {
            assert(s.skip(i as int).len() > 0);
            assert(s.skip(i as int)[0] == s[i as int]);
            assert(s.skip(i as int).drop_first() =~= s.skip(i + 1));
        }
        let ghost before = out@;
        plan_entry(&entries[i], prefix, out);
        proof {
            assert(plan_views(before) + (plan_of_entry(s[i as int], prefix@) + plan_of_entries(
                s.skip(i + 1),
                prefix@,
            )) =~= (plan_views(before) + plan_of_entry(s[i as int], prefix@)) + plan_of_entries(
                s.skip(i + 1),
                prefix@,
            ));
        }
        i = i + 1;
    }
    proof {
        assert(plan_of_entries(s.skip(n as int), prefix@) =~= Seq::<PlanStepV>::empty());
        assert(plan_views(out@) + Seq::<PlanStepV>::empty() =~= plan_views(out@));
        assert(plan_views(out0) + plan_of_entries(s, prefix@) =~= plan_views(out@));
    }
}

/// The steps that extract the contents of `dir` into a destination: the
/// plan an extraction driver executes. The directory itself is not
/// created, only its contents, at paths relative to the destination.
pub fn extraction_plan(dir: &HapiDirectory) -> (r: Vec<HapiPlanStep>)
    ensures
        plan_views(r@) == plan_of_entries(dir_view(*dir).entries, Seq::empty()),
{
    let mut out: Vec<HapiPlanStep> = Vec::new();
    let empty = String::new();
    plan_entries(&dir.contents, &empty, &mut out);
    proof {
        assert(Seq::<PlanStepV>::empty() + plan_of_entries(
            entry_views(dir.contents@),
            Seq::empty(),
        ) =~= plan_of_entries(dir_view(*dir).entries, Seq::empty()));
    }
    out
}

} // verus!
