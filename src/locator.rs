use vstd::prelude::*;
use crate::path::{normalized, path_text, valid_part, AbsPath};

verus! {

/// How the host application was built; fixed for the process lifetime.
#[derive(Clone, Copy, PartialEq, Eq, Structural, Debug)]
pub enum DeploymentMode {
    Development,
    Packaged,
}

/// What the locator may start from. Each path is optional.
pub struct ResolutionContext {
    pub working_dir: Option<AbsPath>,
    pub executable: Option<AbsPath>,
    pub resource_dir: Option<AbsPath>,
}

/// What the host found on disk for one planned candidate directory.
#[derive(Clone, Copy, PartialEq, Eq, Structural, Debug)]
pub struct Probe {
    pub dir_exists: bool,
    pub entry_exists: bool,
}

/// The component's directory and its entry-point file.
#[derive(Debug)]
pub struct ResolvedLocation {
    pub dir: AbsPath,
    pub entry: AbsPath,
}

#[derive(Debug)]
pub enum ResolutionError {
    /// No candidate directory exists; holds every directory probed, in order.
    NotFound(Vec<AbsPath>),
    /// The directory exists but the entry-point file inside it does not.
    EntryPointMissing(AbsPath),
}

/// The outcome of resolution, over path views.
pub enum Resolution {
    Located(Seq<Seq<char>>, Seq<Seq<char>>),
    Missing(Seq<Seq<char>>),
    NotFound(Seq<Seq<Seq<char>>>),
}

pub open spec fn component_name() -> Seq<char> {
    seq!['p', 'y', 't', 'h', 'o', 'n']
}

pub open spec fn entry_name() -> Seq<char> {
    seq!['r', 'e', 'm', 'o', 'v', 'e', '_', 'w', 'a', 't', 'e', 'r', 'm', 'a', 'r', 'k', '_', 'c', 'l', 'i', '.', 'p', 'y']
}

pub open spec fn shell_dir_name() -> Seq<char> {
    seq!['t', 'a', 'u', 'r', 'i']
}

/// Levels tested when walking up from the working directory, itself included.
pub const WORKING_DIR_LEVELS: usize = 3;

/// Levels tested when walking up from the executable's directory, itself included.
pub const EXECUTABLE_LEVELS: usize = 5;

/// The component directory in `d` and in up to `levels - 1` of its ancestors,
/// stopping at the root.
pub open spec fn walk_up(d: Seq<Seq<char>>, levels: nat) -> Seq<Seq<Seq<char>>>
    decreases levels,
{
    if levels == 0 {
        Seq::empty()
    } else if d.len() == 0 {
        seq![d.push(component_name())]
    } else {
        seq![d.push(component_name())] + walk_up(d.drop_last(), (levels - 1) as nat)
    }
}

/// Candidates taken from the working directory: itself, then either its parent
/// (inside the shell's own subproject) or the ancestors within reach.
pub open spec fn working_dir_candidates(c: Seq<Seq<char>>) -> Seq<Seq<Seq<char>>> {
    if c.len() > 0 && c.last() == shell_dir_name() {
        seq![c.push(component_name()), c.drop_last().push(component_name())]
    } else {
        walk_up(c, WORKING_DIR_LEVELS as nat)
    }
}

/// Candidates taken from the executable: its directory and the ancestors within reach.
pub open spec fn executable_candidates(e: Seq<Seq<char>>) -> Seq<Seq<Seq<char>>> {
    if e.len() == 0 {
        Seq::empty()
    } else {
        walk_up(e.drop_last(), EXECUTABLE_LEVELS as nat)
    }
}

pub open spec fn opt_view(p: Option<AbsPath>) -> Option<Seq<Seq<char>>> {
    match p {
        Some(x) => Some(x@),
        None => None,
    }
}

pub open spec fn resource_candidates(r: Option<Seq<Seq<char>>>) -> Seq<Seq<Seq<char>>> {
    match r {
        Some(d) => seq![d.push(component_name())],
        None => Seq::empty(),
    }
}

/// Every candidate directory, in the order in which they are tried.
pub open spec fn plan_of(
    working: Option<Seq<Seq<char>>>,
    executable: Option<Seq<Seq<char>>>,
    resource: Option<Seq<Seq<char>>>,
    mode: DeploymentMode,
) -> Seq<Seq<Seq<char>>> {
    match mode {
        DeploymentMode::Packaged => resource_candidates(resource),
        DeploymentMode::Development => {
            let w = match working {
                Some(c) => working_dir_candidates(c),
                None => Seq::empty(),
            };
            let x = match executable {
                Some(e) => executable_candidates(e),
                None => Seq::empty(),
            };
            w + resource_candidates(resource) + x
        },
    }
}

impl ResolutionContext {
    pub open spec fn wf(&self) -> bool {
        &&& (self.working_dir matches Some(p) ==> p.wf())
        &&& (self.executable matches Some(p) ==> p.wf())
        &&& (self.resource_dir matches Some(p) ==> p.wf())
    }

    pub open spec fn plan(&self, mode: DeploymentMode) -> Seq<Seq<Seq<char>>> {
        plan_of(
            opt_view(self.working_dir),
            opt_view(self.executable),
            opt_view(self.resource_dir),
            mode,
        )
    }
}

pub open spec fn dir_seen(found: Seq<Probe>, i: int) -> bool {
    0 <= i < found.len() && found[i].dir_exists
}

pub open spec fn entry_seen(found: Seq<Probe>, i: int) -> bool {
    0 <= i < found.len() && found[i].entry_exists
}

/// The first index at or after `i` and below `n` whose directory was seen, or `n`.
pub open spec fn first_hit(found: Seq<Probe>, n: int, i: int) -> int
    decreases n - i,
{
    if i >= n {
        n
    } else if dir_seen(found, i) {
        i
    } else {
        first_hit(found, n, i + 1)
    }
}

/// What resolution yields for the candidates `plan` and what was found of each.
pub open spec fn resolution_of(plan: Seq<Seq<Seq<char>>>, found: Seq<Probe>) -> Resolution {
    let k = first_hit(found, plan.len() as int, 0);
    if k < plan.len() {
        if entry_seen(found, k) {
            Resolution::Located(plan[k], plan[k].push(entry_name()))
        } else {
            Resolution::Missing(plan[k])
        }
    } else {
        Resolution::NotFound(plan)
    }
}

pub open spec fn paths_view(v: Seq<AbsPath>) -> Seq<Seq<Seq<char>>> {
    v.map_values(|p: AbsPath| p@)
}

pub open spec fn outcome_view(r: Result<ResolvedLocation, ResolutionError>) -> Resolution {
    match r {
        Ok(loc) => Resolution::Located(loc.dir@, loc.entry@),
        Err(ResolutionError::EntryPointMissing(d)) => Resolution::Missing(d@),
        Err(ResolutionError::NotFound(v)) => Resolution::NotFound(paths_view(v@)),
    }
}

pub open spec fn all_wf(v: Seq<AbsPath>) -> bool {
    forall|i: int| 0 <= i < v.len() ==> (#[trigger] v[i]).wf()
}

/// The name of the component's directory.
pub fn component_dir_name() -> (r: &'static str)
    ensures
        r@ == component_name(),
{
    proof {
        reveal_strlit("python");
    }
    "python"
}

/// The name of the component's entry-point file.
pub fn entry_file_name() -> (r: &'static str)
    ensures
        r@ == entry_name(),
{
    proof {
        reveal_strlit("remove_watermark_cli.py");
    }
    "remove_watermark_cli.py"
}

/// The name of the host shell's own subproject directory.
pub fn shell_subproject_name() -> (r: &'static str)
    ensures
        r@ == shell_dir_name(),
{
    proof {
        reveal_strlit("tauri");
    }
    "tauri"
}

proof fn lemma_names_valid()
    ensures
        valid_part(component_name()),
        valid_part(entry_name()),
{
    assert(component_name()[0] != '.');
    assert(entry_name()[0] != '.');
    assert(component_name().len() != 2);
    assert(entry_name().len() != 2);
}

/// Appends the candidates of `walk_up(d, levels)`.
fn push_walk(out: &mut Vec<AbsPath>, d: &AbsPath, levels: usize)
    requires
        all_wf(old(out)@),
    ensures
        paths_view(final(out)@) == paths_view(old(out)@) + walk_up(d@, levels as nat),
        all_wf(final(out)@),
    decreases levels,
{
    proof {
        use_type_invariant(d);
    }
    let ghost start = paths_view(out@);
    if levels == 0 {
        assert(paths_view(out@) =~= start + walk_up(d@, 0));
        return;
    }
    proof {
        lemma_names_valid();
    }
    let c = d.child(component_dir_name());
    out.push(c);
    assert(paths_view(out@) =~= start + seq![d@.push(component_name())]);
    match d.parent() {
        None => {
            assert(paths_view(out@) =~= start + walk_up(d@, levels as nat));
        },
        Some(p) => {
            push_walk(out, &p, levels - 1);
            assert(paths_view(out@) =~= start + walk_up(d@, levels as nat));
        },
    }
}

fn push_resource(out: &mut Vec<AbsPath>, resource: &Option<AbsPath>)
    requires
        all_wf(old(out)@),
    ensures
        paths_view(final(out)@) == paths_view(old(out)@) + resource_candidates(opt_view(*resource)),
        all_wf(final(out)@),
{
    let ghost start = paths_view(out@);
    match resource {
        Some(d) => {
            proof {
                lemma_names_valid();
            }
            out.push(d.child(component_dir_name()));
        },
        None => {},
    }
    assert(paths_view(out@) =~= start + resource_candidates(opt_view(*resource)));
}

/// Every candidate directory for `ctx` in `mode`, in the order in which they are tried.
pub fn probe_plan(ctx: &ResolutionContext, mode: DeploymentMode) -> (r: Vec<AbsPath>)
    ensures
        paths_view(r@) == ctx.plan(mode),
        all_wf(r@),
{
    let mut out: Vec<AbsPath> = Vec::new();
    assert(paths_view(out@) =~= Seq::empty());
    match mode {
        DeploymentMode::Packaged => {
            push_resource(&mut out, &ctx.resource_dir);
            assert(paths_view(out@) =~= ctx.plan(mode));
        },
        DeploymentMode::Development => {
            match &ctx.working_dir {
                Some(c) => {
                    let ghost before = paths_view(out@);
                    if c.name_is(shell_subproject_name()) {
                        proof {
                            lemma_names_valid();
                        }
                        out.push(c.child(component_dir_name()));
                        match c.parent() {
                            Some(p) => {
                                out.push(p.child(component_dir_name()));
                            },
                            None => {},
                        }
                        assert(paths_view(out@) =~= before + working_dir_candidates(c@));
                    } else {
                        push_walk(&mut out, c, WORKING_DIR_LEVELS);
                    }
                },
                None => {},
            }
            push_resource(&mut out, &ctx.resource_dir);
            match &ctx.executable {
                Some(e) => {
                    match e.parent() {
                        Some(d) => {
                            push_walk(&mut out, &d, EXECUTABLE_LEVELS);
                        },
                        None => {},
                    }
                },
                None => {},
            }
            assert(paths_view(out@) =~= ctx.plan(mode));
        },
    }
    out
}

proof fn lemma_first_hit_skip(found: Seq<Probe>, n: int, i: int)
    requires
        0 <= i < n,
        !dir_seen(found, i),
    ensures
        first_hit(found, n, i) == first_hit(found, n, i + 1),
{
}

/// Resolves the component's location: the first planned candidate whose
/// directory exists, with its entry-point file. `found[i]` reports what exists
/// for the `i`-th candidate of `probe_plan`; a missing report counts as absent.
pub fn resolve(ctx: &ResolutionContext, mode: DeploymentMode, found: &Vec<Probe>) -> (r: Result<
    ResolvedLocation,
    ResolutionError,
>)
    ensures
        outcome_view(r) == resolution_of(ctx.plan(mode), found@),
        r matches Ok(loc) ==> loc.dir.wf() && loc.entry.wf(),
        r matches Err(ResolutionError::EntryPointMissing(d)) ==> d.wf(),
        r matches Err(ResolutionError::NotFound(v)) ==> all_wf(v@),
{
    let plan = probe_plan(ctx, mode);
    let n = plan.len();
    let mut i: usize = 0;
    while i < n
        invariant
            n == plan@.len(),
            i <= n,
            paths_view(plan@) == ctx.plan(mode),
            all_wf(plan@),
            first_hit(found@, n as int, 0) == first_hit(found@, n as int, i as int),
        decreases n - i,
    {
        if i < found.len() && found[i].dir_exists {
            let dir = plan[i].clone_path();
            assert(plan@[i as int].wf());
            assert(dir@ == ctx.plan(mode)[i as int]);
            if found[i].entry_exists {
                proof {
                    lemma_names_valid();
                }
                let entry = dir.child(entry_file_name());
                return Ok(ResolvedLocation { dir, entry });
            } else {
                return Err(ResolutionError::EntryPointMissing(dir));
            }
        }
        proof {
            lemma_first_hit_skip(found@, n as int, i as int);
        }
        i = i + 1;
    }
    Err(ResolutionError::NotFound(plan))
}

proof fn lemma_first_hit_bounds(found: Seq<Probe>, n: int, s: int, i: int)
    requires
        0 <= s <= i < n,
        dir_seen(found, i),
    ensures
        s <= first_hit(found, n, s) <= i,
        dir_seen(found, first_hit(found, n, s)),
        forall|j: int| s <= j < first_hit(found, n, s) ==> !dir_seen(found, j),
    decreases i - s,
{
    if !dir_seen(found, s) {
        lemma_first_hit_bounds(found, n, s + 1, i);
    }
}

proof fn lemma_first_hit_none(found: Seq<Probe>, n: int, s: int)
    requires
        0 <= s <= n,
        forall|j: int| s <= j < n ==> !dir_seen(found, j),
    ensures
        first_hit(found, n, s) == n,
    decreases n - s,
{
    if s < n {
        lemma_first_hit_none(found, n, s + 1);
    }
}

proof fn lemma_walk_up_normalized(d: Seq<Seq<char>>, levels: nat)
    requires
        normalized(d),
    ensures
        forall|i: int| 0 <= i < walk_up(d, levels).len() ==> normalized(#[trigger] walk_up(d, levels)[i]),
        levels > 0 ==> walk_up(d, levels).len() > 0,
    decreases levels,
{
    lemma_names_valid();
    if levels > 0 {
        assert(normalized(d.push(component_name()))) by {
            assert forall|i: int| 0 <= i < d.push(component_name()).len() implies valid_part(
                #[trigger] d.push(component_name())[i],
            ) by {
                if i < d.len() {
                    assert(d.push(component_name())[i] == d[i]);
                }
            }
        }
        if d.len() > 0 {
            let up = d.drop_last();
            assert(normalized(up)) by {
                assert forall|i: int| 0 <= i < up.len() implies valid_part(#[trigger] up[i]) by {
                    assert(up[i] == d[i]);
                }
            }
            lemma_walk_up_normalized(up, (levels - 1) as nat);
            let w = walk_up(d, levels);
            assert forall|i: int| 0 <= i < w.len() implies normalized(#[trigger] w[i]) by {
                if i > 0 {
                    assert(w[i] == walk_up(up, (levels - 1) as nat)[i - 1]);
                }
            }
        }
    }
}

proof fn lemma_child_normalized(d: Seq<Seq<char>>)
    requires
        normalized(d),
    ensures
        normalized(d.push(component_name())),
{
    lemma_walk_up_normalized(d, 1);
    assert(walk_up(d, 1)[0] == d.push(component_name()));
}

proof fn lemma_parent_normalized(d: Seq<Seq<char>>)
    requires
        normalized(d),
        d.len() > 0,
    ensures
        normalized(d.drop_last()),
{
    assert forall|i: int| 0 <= i < d.drop_last().len() implies valid_part(#[trigger] d.drop_last()[i]) by {
        assert(d.drop_last()[i] == d[i]);
    }
}

/// Some planned candidate to start from: the working directory, the resource
/// directory, or an executable below the root in development; the resource
/// directory when packaged.
pub open spec fn has_anchor(ctx: &ResolutionContext, mode: DeploymentMode) -> bool {
    match mode {
        DeploymentMode::Packaged => ctx.resource_dir.is_some(),
        DeploymentMode::Development => {
            ||| ctx.working_dir.is_some()
            ||| ctx.resource_dir.is_some()
            ||| (ctx.executable matches Some(e) && e@.len() > 0)
        },
    }
}

/// When the directory of some planned candidate exists, resolution never ends
/// in `NotFound`: it settles on the first candidate whose directory exists, and
/// gives that directory with the entry-point file inside it when the file exists.
pub proof fn lemma_existing_component_is_located(
    ctx: &ResolutionContext,
    mode: DeploymentMode,
    found: Seq<Probe>,
    i: int,
)
    requires
        0 <= i < ctx.plan(mode).len(),
        dir_seen(found, i),
    ensures
        ({
            let plan = ctx.plan(mode);
            let k = first_hit(found, plan.len() as int, 0);
            &&& 0 <= k <= i
            &&& dir_seen(found, k)
            &&& forall|j: int| 0 <= j < k ==> !dir_seen(found, j)
            &&& entry_seen(found, k) ==> resolution_of(plan, found) == Resolution::Located(
                plan[k],
                plan[k].push(entry_name()),
            )
            &&& !entry_seen(found, k) ==> resolution_of(plan, found) == Resolution::Missing(plan[k])
        }),
{
    lemma_first_hit_bounds(found, ctx.plan(mode).len() as int, 0, i);
}

/// When no planned directory exists, resolution ends in `NotFound` with the
/// whole plan, which is non-empty whenever there is a place to start from, and
/// whose paths are all absolute and normalized.
pub proof fn lemma_absent_component_not_found(
    ctx: &ResolutionContext,
    mode: DeploymentMode,
    found: Seq<Probe>,
)
    requires
        ctx.wf(),
        has_anchor(ctx, mode),
        forall|j: int| 0 <= j < ctx.plan(mode).len() ==> !dir_seen(found, j),
    ensures
        resolution_of(ctx.plan(mode), found) == Resolution::NotFound(ctx.plan(mode)),
        ctx.plan(mode).len() > 0,
        forall|j: int| 0 <= j < ctx.plan(mode).len() ==> normalized(#[trigger] ctx.plan(mode)[j]),
{
    let plan = ctx.plan(mode);
    lemma_first_hit_none(found, plan.len() as int, 0);
    lemma_names_valid();
    let r = resource_candidates(opt_view(ctx.resource_dir));
    if let Some(d) = ctx.resource_dir {
        lemma_child_normalized(d@);
    }
    match mode {
        DeploymentMode::Packaged => {},
        DeploymentMode::Development => {
            let w = match opt_view(ctx.working_dir) {
                Some(c) => working_dir_candidates(c),
                None => Seq::empty(),
            };
            let x = match opt_view(ctx.executable) {
                Some(e) => executable_candidates(e),
                None => Seq::empty(),
            };
            if let Some(c) = ctx.working_dir {
                if c@.len() > 0 && c@.last() == shell_dir_name() {
                    lemma_child_normalized(c@);
                    lemma_parent_normalized(c@);
                    lemma_child_normalized(c@.drop_last());
                } else {
                    lemma_walk_up_normalized(c@, WORKING_DIR_LEVELS as nat);
                }
            }
            if let Some(e) = ctx.executable {
                if e@.len() > 0 {
                    lemma_parent_normalized(e@);
                    lemma_walk_up_normalized(e@.drop_last(), EXECUTABLE_LEVELS as nat);
                }
            }
            assert(plan == w + r + x);
            assert forall|j: int| 0 <= j < plan.len() implies normalized(#[trigger] plan[j]) by {
                if j < w.len() {
                    assert(plan[j] == w[j]);
                } else if j < w.len() + r.len() {
                    assert(plan[j] == r[j - w.len()]);
                } else {
                    assert(plan[j] == x[j - w.len() - r.len()]);
                }
            }
        },
    }
}

/// When packaged, the working directory and the executable play no part:
/// contexts that agree on the resource directory plan the same single
/// candidate and resolve alike, whatever exists elsewhere on disk.
pub proof fn lemma_packaged_ignores_working_dir(
    a: &ResolutionContext,
    b: &ResolutionContext,
    found: Seq<Probe>,
)
    requires
        opt_view(a.resource_dir) == opt_view(b.resource_dir),
    ensures
        a.plan(DeploymentMode::Packaged) == b.plan(DeploymentMode::Packaged),
        a.plan(DeploymentMode::Packaged) == resource_candidates(opt_view(a.resource_dir)),
        a.plan(DeploymentMode::Packaged).len() <= 1,
        resolution_of(a.plan(DeploymentMode::Packaged), found) == resolution_of(
            b.plan(DeploymentMode::Packaged),
            found,
        ),
{
}

/// The texts of the paths, separated by `, `.
pub open spec fn listed(paths: Seq<Seq<Seq<char>>>) -> Seq<char>
    decreases paths.len(),
{
    if paths.len() == 0 {
        Seq::empty()
    } else if paths.len() == 1 {
        path_text(paths[0])
    } else {
        listed(paths.drop_last()) + ", "@ + path_text(paths.last())
    }
}

impl ResolutionError {
    /// The message shown to the user.
    pub open spec fn message_spec(&self) -> Seq<char> {
        match self {
            ResolutionError::NotFound(v) => "component directory not found; searched: "@ + listed(
                paths_view(v@),
            ),
            ResolutionError::EntryPointMissing(d) => "entry point missing: "@ + path_text(
                d@.push(entry_name()),
            ) + " (the component directory must hold remove_watermark_cli.py)"@,
        }
    }

    pub fn message(&self) -> (r: String)
        ensures
            r@ == self.message_spec(),
    {
        match self {
            ResolutionError::NotFound(v) => {
                let mut out = String::from_str("component directory not found; searched: ");
                let ghost head = out@;
                let ghost pv = paths_view(v@);
                let mut i: usize = 0;
                while i < v.len()
                    invariant
                        i <= v@.len(),
                        pv == paths_view(v@),
                        out@ == head + listed(pv.take(i as int)),
                    decreases v.len() - i,
                {
                    proof {
                        assert(pv.take(i + 1).drop_last() =~= pv.take(i as int));
                        assert(pv.take(i + 1).last() == v@[i as int]@);
                        if i == 0 {
                            assert(pv.take(1)[0] == v@[0]@);
                        }
                    }
                    if i > 0 {
                        out.append(", ");
                    }
                    let t = v[i].to_text();
                    out.append(t.as_str());
                    i = i + 1;
                }
                assert(pv.take(i as int) =~= pv);
                out
            },
            ResolutionError::EntryPointMissing(d) => {
                proof {
                    lemma_names_valid();
                }
                let mut out = String::from_str("entry point missing: ");
                let t = d.child(entry_file_name()).to_text();
                out.append(t.as_str());
                out.append(" (the component directory must hold remove_watermark_cli.py)");
                out
            },
        }
    }
}

} // verus!
