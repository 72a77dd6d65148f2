//! The execution supervisor: starting a run, observing it tick by tick,
//! and killing it.
//!
//! A run of a graph with `n` nodes and `e` edges provisions `n + e`
//! ephemeral resources, listed scripts first: resource `id` (for
//! `id < n`) is node `id`'s script file, and resource `n + k` is the
//! pipe serving edge `k`. The engine computes every path, environment
//! and process record itself and proves them right; the embedding
//! program only executes the returned [`StartPlan`] (create the files,
//! spawn the processes) and reports back what it observed, one
//! [`TickEvent`] per live process, per tick.

use vstd::prelude::*;

use crate::ephemeral::{fresh_path, Pipe, Resource, Script};
use crate::graph::Graph;
use crate::resolve::{build_env, env_entries, env_views, pipe_views};

verus! {

/// The exit status of a finished process, as the embedding program
/// observed it: the process's exit code, with 0 denoting success.
#[derive(Clone, Copy, PartialEq, Eq, Structural, Debug)]
pub struct ExitStatus {
    pub code: i32,
}

impl ExitStatus {
    /// Whether the status denotes success.
    pub open spec fn spec_success(self) -> bool {
        self.code == 0
    }

    /// Whether the status denotes success.
    pub fn success(&self) -> (r: bool)
        ensures
            r == self.spec_success(),
    {
        self.code == 0
    }
}

/// A live process of the current run: which node it runs, and which of
/// the run's resources it holds alive (its script, and the pipe of
/// every edge touching one of its ports).
#[derive(Debug)]
pub struct Process {
    /// The node this process runs.
    pub node: usize,
    /// The resource identifier of the node's script file.
    pub script: usize,
    /// The resource identifiers of the pipes the process holds.
    pub pipes: Vec<usize>,
}

/// The bytes captured so far from one node's standard output and
/// standard error streams.
#[derive(Debug)]
pub struct OutputRecord {
    pub node: usize,
    pub stdout: Vec<u8>,
    pub stderr: Vec<u8>,
}

/// What the embedding program observed on one live process during one
/// tick: the bytes a non-blocking read drained from its two streams
/// (possibly none), and its exit status if a non-blocking check found
/// it terminated.
#[derive(Debug)]
pub struct TickEvent {
    pub node: usize,
    pub stdout: Vec<u8>,
    pub stderr: Vec<u8>,
    pub status: Option<ExitStatus>,
}

/// One script file to materialize: write `source` to the file verbatim,
/// then mark it executable ([`crate::ephemeral::SCRIPT_MODE`]).
#[derive(Debug)]
pub struct ScriptJob {
    pub file: Script,
    pub source: String,
}

/// One process to spawn: execute `program` (the node's script file)
/// with exactly the variables of `env` added to its environment, with
/// its standard output and error captured by the embedding program.
#[derive(Debug)]
pub struct Launch {
    pub node: usize,
    pub program: String,
    pub env: Vec<(String, String)>,
}

/// Everything the embedding program must do to bring a freshly started
/// run to life: materialize the scripts, create the pipes as FIFOs
/// ([`crate::ephemeral::PIPE_MODE`]), then spawn one process per launch.
#[derive(Debug)]
pub struct StartPlan {
    pub scripts: Vec<ScriptJob>,
    pub pipes: Vec<Pipe>,
    pub launches: Vec<Launch>,
}

/// Why a run could not be started.
#[derive(Clone, Copy, PartialEq, Eq, Structural, Debug)]
pub enum StartError {
    /// Processes of a previous run are still live; kill them first.
    AlreadyRunning,
}

/// The transient state of the current run: the live process table, the
/// exit statuses recorded so far, the captured output, and the run's
/// ephemeral resources.
pub struct ProjectInner {
    pub processes: Vec<Process>,
    pub graves: Vec<(usize, ExitStatus)>,
    pub output: Vec<OutputRecord>,
    pub resources: Vec<Resource>,
}

/// A project: the persistent graph, and the transient run state.
pub struct Project {
    pub graph: Graph,
    pub inner: ProjectInner,
}

/// Whether process `p` holds resource `r`.
pub open spec fn proc_references(p: Process, r: int) -> bool {
    p.script as int == r || exists|j: int| 0 <= j < p.pipes@.len() && p.pipes@[j] as int == r
}

/// Whether some process of `ps` holds resource `r`.
pub open spec fn referenced(ps: Seq<Process>, r: int) -> bool {
    exists|i: int| 0 <= i < ps.len() && proc_references(ps[i], r)
}

/// Whether node `id` has a live process in `ps`.
pub open spec fn live_node(ps: Seq<Process>, id: int) -> bool {
    exists|i: int| 0 <= i < ps.len() && ps[i].node as int == id
}

/// Whether node `id` has a recorded exit status in `gs`.
pub open spec fn buried_node(gs: Seq<(usize, ExitStatus)>, id: int) -> bool {
    exists|i: int| 0 <= i < gs.len() && gs[i].0 as int == id
}

/// Whether node `id` belongs to the current run: it is live or already
/// has an exit status.
pub open spec fn started_node(inner: ProjectInner, id: int) -> bool {
    live_node(inner.processes@, id) || buried_node(inner.graves@, id)
}

/// Whether every resource identifier of `p` indexes a resource table of
/// length `len`.
pub open spec fn proc_in_range(p: Process, len: int) -> bool {
    &&& (p.script as int) < len
    &&& forall|j: int| 0 <= j < p.pipes@.len() ==> (#[trigger] p.pipes@[j] as int) < len
}

/// Whether edge `k` touches node `id`: the node consumes it through an
/// input port or feeds it through an output port.
pub open spec fn edge_touches_node(g: Graph, k: int, id: int) -> bool {
    ||| g.inputs@[g.connections@[k].input as int].node as int == id
    ||| g.outputs@[g.connections@[k].output as int].node as int == id
}

impl ProjectInner {
    /// The supervisor's invariant: at most one live process and at most
    /// one exit status per node, never both; one output record per
    /// node of the run, in node order; every resource identifier in
    /// range; and a resource is alive exactly while some live process
    /// holds it — the run's objects on disk are exactly the live ones.
    pub open spec fn wf(self) -> bool {
        &&& forall|i: int, j: int|
            0 <= i < j < self.processes@.len() ==> (#[trigger] self.processes@[i]).node != (
            #[trigger] self.processes@[j]).node
        &&& forall|i: int, j: int|
            0 <= i < j < self.graves@.len() ==> (#[trigger] self.graves@[i]).0 != (
            #[trigger] self.graves@[j]).0
        &&& forall|i: int|
            0 <= i < self.processes@.len() ==> !buried_node(
                self.graves@,
                (#[trigger] self.processes@[i]).node as int,
            )
        &&& forall|j: int| 0 <= j < self.output@.len() ==> (#[trigger] self.output@[j]).node == j
        &&& forall|i: int|
            0 <= i < self.processes@.len() ==> (#[trigger] self.processes@[i]).node
                < self.output@.len()
        &&& forall|i: int|
            0 <= i < self.processes@.len() ==> proc_in_range(
                #[trigger] self.processes@[i],
                self.resources@.len() as int,
            )
        &&& forall|r: int|
            0 <= r < self.resources@.len() ==> ((#[trigger] self.resources@[r]).alive
                <==> referenced(self.processes@, r))
    }
}

impl Default for ProjectInner {
    /// Empty run state: nothing live, nothing recorded, no resources.
    fn default() -> (inner: ProjectInner)
        ensures
            inner.processes@.len() == 0,
            inner.graves@.len() == 0,
            inner.output@.len() == 0,
            inner.resources@.len() == 0,
            inner.wf(),
    {
        ProjectInner {
            processes: Vec::new(),
            graves: Vec::new(),
            output: Vec::new(),
            resources: Vec::new(),
        }
    }
}

impl Default for Project {
    /// An empty project: an empty graph and empty run state.
    fn default() -> (p: Project)
        ensures
            p.graph.nodes@.len() == 0,
            p.graph.inputs@.len() == 0,
            p.graph.outputs@.len() == 0,
            p.graph.connections@.len() == 0,
            p.graph.wf(),
            p.inner.processes@.len() == 0,
            p.inner.graves@.len() == 0,
            p.inner.output@.len() == 0,
            p.inner.resources@.len() == 0,
            p.inner.wf(),
    {
        Project { graph: Graph::default(), inner: ProjectInner::default() }
    }
}

/// What a successful start establishes, over the graph `g` that was
/// started, the new run state `inner`, the plan handed back, and the
/// scratch directory's path.
pub open spec fn start_post(g: Graph, inner: ProjectInner, plan: StartPlan, scratch: Seq<char>) -> bool {
    let n = g.nodes@.len() as int;
    let e = g.connections@.len() as int;
    let pp = pipe_views(plan.pipes@);
    &&& inner.graves@.len() == 0
    &&& inner.output@.len() == n
    &&& forall|j: int|
        0 <= j < n ==> {
            let rec = #[trigger] inner.output@[j];
            rec.node == j && rec.stdout@.len() == 0 && rec.stderr@.len() == 0
        }
    &&& inner.resources@.len() == n + e
    &&& forall|r: int| 0 <= r < n + e ==> (#[trigger] inner.resources@[r]).alive
    &&& forall|r: int|
        0 <= r < n + e ==> (#[trigger] inner.resources@[r]).path@.len() == scratch.len() + 37
    &&& plan.scripts@.len() == n
    &&& forall|id: int|
        0 <= id < n ==> {
            let job = #[trigger] plan.scripts@[id];
            job.file.0@ == inner.resources@[id].path@ && job.source@ == g.nodes@[id].node.script@
        }
    &&& plan.pipes@.len() == e
    &&& forall|k: int| 0 <= k < e ==> (#[trigger] plan.pipes@[k]).0@ == inner.resources@[n + k].path@
    &&& inner.processes@.len() == n
    &&& forall|id: int|
        0 <= id < n ==> {
            let p = #[trigger] inner.processes@[id];
            &&& p.node == id
            &&& p.script == id
            &&& forall|j: int| 0 <= j < p.pipes@.len() ==> n <= #[trigger] p.pipes@[j] < n + e
            &&& forall|k: int|
                0 <= k < e ==> (p.pipes@.contains((n + k) as usize) <==> #[trigger] edge_touches_node(
                    g,
                    k,
                    id,
                ))
        }
    &&& plan.launches@.len() == n
    &&& forall|id: int|
        0 <= id < n ==> {
            let l = #[trigger] plan.launches@[id];
            &&& l.node == id
            &&& l.program@ == inner.resources@[id].path@
            &&& env_views(l.env@) == env_entries(g, pp, id)
        }
}

/// The pipes node `id` holds: one entry per edge touching the node,
/// in edge order, as run-resource identifiers.
fn node_pipes(g: &Graph, id: usize) -> (pipes: Vec<usize>)
    requires
        g.wf(),
        g.nodes@.len() + g.connections@.len() <= usize::MAX,
    ensures
        forall|j: int|
            0 <= j < pipes@.len() ==> g.nodes@.len() <= #[trigger] pipes@[j] < g.nodes@.len()
                + g.connections@.len(),
        forall|k: int|
            0 <= k < g.connections@.len() ==> (pipes@.contains((g.nodes@.len() + k) as usize)
                <==> #[trigger] edge_touches_node(*g, k, id as int)),
{
    let n = g.nodes.len();
    let e = g.connections.len();
    let mut pipes: Vec<usize> = Vec::new();
    let mut k: usize = 0;
    while k < e
        invariant
            g.wf(),
            n == g.nodes@.len(),
            e == g.connections@.len(),
            n + e <= usize::MAX,
            k <= e,
            forall|j: int| 0 <= j < pipes@.len() ==> n <= #[trigger] pipes@[j] < n + k,
            forall|j: int|
                0 <= j < pipes@.len() ==> edge_touches_node(
                    *g,
                    #[trigger] pipes@[j] as int - n as int,
                    id as int,
                ),
            forall|kk: int|
                0 <= kk < k && #[trigger] edge_touches_node(*g, kk, id as int) ==> pipes@.contains(
                    (n + kk) as usize,
                ),
        decreases e - k,
    {
        let edge = g.connections[k];
        if g.inputs[edge.input].node == id || g.outputs[edge.output].node == id {
            let ghost pre = pipes@;
            pipes.push(n + k);
            proof {
                assert forall|kk: int|
                    0 <= kk < k + 1 && #[trigger] edge_touches_node(*g, kk, id as int)
                    implies pipes@.contains((n + kk) as usize) by {
                    if kk < k {
                        assert(pre.contains((n + kk) as usize));
                        let j = choose|j: int| 0 <= j < pre.len() && pre[j] == (n + kk) as usize;
                        assert(pipes@[j] == (n + kk) as usize);
                    } else {
                        assert(pipes@[pipes@.len() - 1] == (n + k) as usize);
                    }
                }
            }
        }
        k = k + 1;
    }
    proof {
        assert forall|kk: int|
            0 <= kk < e implies (pipes@.contains((n + kk) as usize) <==> edge_touches_node(
            *g,
            kk,
            id as int,
        )) by {
            if pipes@.contains((n + kk) as usize) {
                let j = choose|j: int| 0 <= j < pipes@.len() && pipes@[j] == (n + kk) as usize;
                assert(edge_touches_node(*g, pipes@[j] as int - n as int, id as int));
                assert(pipes@[j] as int - n as int == kk);
            }
        }
    }
    pipes
}

impl Project {
    /// The project's graph.
    pub fn graph(&self) -> (g: &Graph)
        ensures
            g == &self.graph,
    {
        &self.graph
    }

    /// Starts a run of the whole graph: clears the exit statuses and
    /// captured output of the previous run, provisions fresh paths for
    /// one script file per node and one pipe per edge, computes each
    /// node's environment, and installs one live process record per
    /// node. Every node starts simultaneously; ordering between nodes
    /// comes only from blocking pipe reads. The returned plan tells the
    /// embedding program what to create and spawn; if some of it fails,
    /// the program rolls the run back with [`Project::kill_processes`].
    ///
    /// Starting is refused while processes of a previous run are live.
    pub fn start(&mut self, scratch: &str) -> (res: Result<StartPlan, StartError>)
        requires
            old(self).graph.wf(),
            old(self).graph.nodes@.len() + old(self).graph.connections@.len() <= usize::MAX,
        ensures
            final(self).graph == old(self).graph,
            res is Ok <==> old(self).inner.processes@.len() == 0,
            res is Err ==> *final(self) == *old(self),
            res matches Err(err) ==> err == StartError::AlreadyRunning,
            res matches Ok(plan) ==> start_post(old(self).graph, final(self).inner, plan, scratch@),
            res is Ok ==> final(self).inner.wf(),
    {
        if self.inner.processes.len() > 0 {
            return Err(StartError::AlreadyRunning);
        }
        let n = self.graph.nodes.len();
        let e = self.graph.connections.len();

        let mut resources: Vec<Resource> = Vec::new();
        let mut scripts: Vec<ScriptJob> = Vec::new();
        let mut output: Vec<OutputRecord> = Vec::new();
        let mut id: usize = 0;
        while id < n
            invariant
                n == self.graph.nodes@.len(),
                id <= n,
                resources@.len() == id,
                scripts@.len() == id,
                output@.len() == id,
                forall|r: int| 0 <= r < id ==> (#[trigger] resources@[r]).alive,
                forall|r: int|
                    0 <= r < id ==> (#[trigger] resources@[r]).path@.len() == scratch@.len() + 37,
                forall|j: int|
                    0 <= j < id ==> {
                        let rec = #[trigger] output@[j];
                        rec.node == j && rec.stdout@.len() == 0 && rec.stderr@.len() == 0
                    },
                forall|i: int|
                    0 <= i < id ==> {
                        let job = #[trigger] scripts@[i];
                        job.file.0@ == resources@[i].path@ && job.source@
                            == self.graph.nodes@[i].node.script@
                    },
            decreases n - id,
        {
            let path = fresh_path(scratch);
            let source = self.graph.nodes[id].node.script.clone();
            resources.push(Resource { path: path.clone(), alive: true });
            scripts.push(ScriptJob { file: Script(path), source });
            output.push(OutputRecord { node: id, stdout: Vec::new(), stderr: Vec::new() });
            id = id + 1;
        }

        let mut pipes: Vec<Pipe> = Vec::new();
        let mut k: usize = 0;
        while k < e
            invariant
                n == self.graph.nodes@.len(),
                e == self.graph.connections@.len(),
                n + e <= usize::MAX,
                k <= e,
                resources@.len() == n + k,
                pipes@.len() == k,
                scripts@.len() == n,
                output@.len() == n,
                forall|r: int| 0 <= r < n + k ==> (#[trigger] resources@[r]).alive,
                forall|r: int|
                    0 <= r < n + k ==> (#[trigger] resources@[r]).path@.len() == scratch@.len()
                        + 37,
                forall|j: int|
                    0 <= j < n ==> {
                        let rec = #[trigger] output@[j];
                        rec.node == j && rec.stdout@.len() == 0 && rec.stderr@.len() == 0
                    },
                forall|i: int|
                    0 <= i < n ==> {
                        let job = #[trigger] scripts@[i];
                        job.file.0@ == resources@[i].path@ && job.source@
                            == self.graph.nodes@[i].node.script@
                    },
                forall|kk: int|
                    0 <= kk < k ==> (#[trigger] pipes@[kk]).0@ == resources@[n + kk].path@,
            decreases e - k,
        {
            let path = fresh_path(scratch);
            resources.push(Resource { path: path.clone(), alive: true });
            pipes.push(Pipe(path));
            k = k + 1;
        }

        let mut processes: Vec<Process> = Vec::new();
        let mut launches: Vec<Launch> = Vec::new();
        let mut id: usize = 0;
        while id < n
            invariant
                self.graph.wf(),
                n == self.graph.nodes@.len(),
                e == self.graph.connections@.len(),
                n + e <= usize::MAX,
                id <= n,
                resources@.len() == n + e,
                pipes@.len() == e,
                processes@.len() == id,
                launches@.len() == id,
                forall|i: int|
                    0 <= i < id ==> {
                        let p = #[trigger] processes@[i];
                        &&& p.node == i
                        &&& p.script == i
                        &&& forall|j: int|
                            0 <= j < p.pipes@.len() ==> n <= #[trigger] p.pipes@[j] < n + e
                        &&& forall|kk: int|
                            0 <= kk < e ==> (p.pipes@.contains((n + kk) as usize)
                                <==> #[trigger] edge_touches_node(self.graph, kk, i))
                    },
                forall|i: int|
                    0 <= i < id ==> {
                        let l = #[trigger] launches@[i];
                        &&& l.node == i
                        &&& l.program@ == resources@[i].path@
                        &&& env_views(l.env@) == env_entries(self.graph, pipe_views(pipes@), i)
                    },
            decreases n - id,
        {
            let ppipes = node_pipes(&self.graph, id);
            let env = build_env(&self.graph, &pipes, id);
            let program = resources[id].path.clone();
            processes.push(Process { node: id, script: id, pipes: ppipes });
            launches.push(Launch { node: id, program, env });
            id = id + 1;
        }

        self.inner = ProjectInner { processes, graves: Vec::new(), output, resources };
        let plan = StartPlan { scripts, pipes, launches };
        proof {
            let g = self.graph;
            let inner = self.inner;
            assert forall|r: int|
                0 <= r < inner.resources@.len() implies ((#[trigger] inner.resources@[r]).alive
                <==> referenced(inner.processes@, r)) by {
                if r < n {
                    assert(proc_references(inner.processes@[r], r));
                    assert(referenced(inner.processes@, r));
                } else {
                    let k = r - n;
                    let port = g.connections@[k].input as int;
                    let owner = g.inputs@[port].node as int;
                    assert(0 <= owner < n);
                    assert(edge_touches_node(g, k, owner));
                    assert(inner.processes@[owner].pipes@.contains((n + k) as usize));
                    let j = choose|j: int|
                        0 <= j < inner.processes@[owner].pipes@.len()
                            && inner.processes@[owner].pipes@[j] == (n + k) as usize;
                    assert(proc_references(inner.processes@[owner], r));
                    assert(referenced(inner.processes@, r));
                }
            }
            assert(inner.wf());
        }
        Ok(plan)
    }

    /// One supervision tick. For every live process, in table order,
    /// the embedding program reports what one non-blocking drain of the
    /// process's output streams and one non-blocking termination check
    /// observed. The drained bytes are appended to the node's captured
    /// output; a process observed terminated has its exit status
    /// recorded, exactly once, and is dropped, releasing the resources
    /// it held. Returns the identifiers of the resources whose last
    /// holder was dropped this tick: their filesystem objects are now
    /// to be removed. A tick that observed nothing changes nothing.
    #[verifier::rlimit(50)]
    pub fn tick_processes(&mut self, events: &Vec<TickEvent>) -> (dead: Vec<usize>)
        requires
            old(self).inner.wf(),
            events@.len() == old(self).inner.processes@.len(),
            forall|i: int|
                0 <= i < events@.len() ==> (#[trigger] events@[i]).node == old(self).inner.processes@[i].node,
        ensures
            final(self).graph == old(self).graph,
            final(self).inner.processes@ == surviving(old(self).inner.processes@, events@),
            final(self).inner.graves@ == old(self).inner.graves@ + reaped(
                old(self).inner.processes@,
                events@,
            ),
            final(self).inner.output@.len() == old(self).inner.output@.len(),
            forall|i: int|
                0 <= i < events@.len() ==> {
                    let id = (#[trigger] events@[i]).node as int;
                    &&& final(self).inner.output@[id].stdout@ == old(self).inner.output@[id].stdout@
                        + events@[i].stdout@
                    &&& final(self).inner.output@[id].stderr@ == old(self).inner.output@[id].stderr@
                        + events@[i].stderr@
                },
            forall|j: int|
                0 <= j < old(self).inner.output@.len() && !live_node(old(self).inner.processes@, j)
                    ==> #[trigger] final(self).inner.output@[j] == old(self).inner.output@[j],
            final(self).inner.resources@.len() == old(self).inner.resources@.len(),
            forall|r: int|
                0 <= r < old(self).inner.resources@.len() ==> (#[trigger] final(self).inner.resources@[r]).path == old(self).inner.resources@[r].path,
            forall|m: int|
                0 <= m < dead@.len() ==> (#[trigger] dead@[m]) < old(self).inner.resources@.len()
                    && old(self).inner.resources@[dead@[m] as int].alive && !final(self).inner.resources@[dead@[m] as int].alive,
            forall|r: int|
                0 <= r < old(self).inner.resources@.len() && old(self).inner.resources@[r].alive
                    && !referenced(final(self).inner.processes@, r) ==> dead@.contains(r as usize),
            forall|m1: int, m2: int| 0 <= m1 < m2 < dead@.len() ==> dead@[m1] < dead@[m2],
            forall|id: int|
                #[trigger] started_node(final(self).inner, id) <==> started_node(
                    old(self).inner,
                    id,
                ),
            final(self).inner.wf(),
            silent(events@) ==> {
                &&& final(self).inner.processes@ == old(self).inner.processes@
                &&& final(self).inner.graves@ == old(self).inner.graves@
                &&& final(self).inner.output@ == old(self).inner.output@
                &&& final(self).inner.resources@ == old(self).inner.resources@
                &&& dead@.len() == 0
            },
    {
        let ghost orig = self.inner.processes@;
        let total = self.inner.processes.len();
        let mut taken: Vec<Process> = Vec::new();
        core::mem::swap(&mut self.inner.processes, &mut taken);
        let mut survivors: Vec<Process> = Vec::new();
        let mut i: usize = 0;
        proof {
            assert(orig.take(0) =~= Seq::<Process>::empty());
            assert(survivors@ =~= surviving(orig.take(0), events@));
            assert(self.inner.graves@ =~= old(self).inner.graves@ + reaped(
                orig.take(0),
                events@,
            ));
            assert(taken@ =~= orig.subrange(0, total as int));
        }
        while i < total
            invariant
                old(self).inner.wf(),
                orig == old(self).inner.processes@,
                events@.len() == total,
                total == orig.len(),
                forall|ii: int|
                    0 <= ii < events@.len() ==> (#[trigger] events@[ii]).node == orig[ii].node,
                i <= total,
                taken@ == orig.subrange(i as int, total as int),
                survivors@ == surviving(orig.take(i as int), events@),
                self.graph == old(self).graph,
                self.inner.processes@.len() == 0,
                self.inner.resources@ == old(self).inner.resources@,
                self.inner.graves@ == old(self).inner.graves@ + reaped(
                    orig.take(i as int),
                    events@,
                ),
                forall|a: int, b: int|
                    0 <= a < b < self.inner.graves@.len() ==> (#[trigger] self.inner.graves@[a]).0
                        != (#[trigger] self.inner.graves@[b]).0,
                forall|j: int|
                    0 <= j < survivors@.len() ==> !buried_node(
                        self.inner.graves@,
                        (#[trigger] survivors@[j]).node as int,
                    ),
                forall|ii: int|
                    i <= ii < total ==> !buried_node(
                        self.inner.graves@,
                        (#[trigger] orig[ii]).node as int,
                    ),
                forall|j: int|
                    0 <= j < survivors@.len() ==> exists|ii: int|
                        0 <= ii < i && #[trigger] survivors@[j] == orig[ii],
                forall|a: int, b: int|
                    0 <= a < b < survivors@.len() ==> (#[trigger] survivors@[a]).node != (
                    #[trigger] survivors@[b]).node,
                self.inner.output@.len() == old(self).inner.output@.len(),
                forall|j: int|
                    0 <= j < self.inner.output@.len() ==> (#[trigger] self.inner.output@[j]).node
                        == j,
                forall|ii: int|
                    0 <= ii < i ==> {
                        let id = (#[trigger] orig[ii]).node as int;
                        &&& self.inner.output@[id].stdout@ == old(self).inner.output@[id].stdout@
                            + events@[ii].stdout@
                        &&& self.inner.output@[id].stderr@ == old(self).inner.output@[id].stderr@
                            + events@[ii].stderr@
                    },
                forall|j: int|
                    0 <= j < self.inner.output@.len() && !live_node(orig.take(i as int), j)
                        ==> #[trigger] self.inner.output@[j] == old(self).inner.output@[j],
                silent(events@) ==> {
                    &&& survivors@ == orig.take(i as int)
                    &&& self.inner.graves@ == old(self).inner.graves@
                    &&& self.inner.output@ == old(self).inner.output@
                },
            decreases total - i,
        {
            let ghost t0 = orig.take(i as int);
            let ghost t1 = orig.take(i as int + 1);
            proof {
                assert(t1.drop_last() =~= t0);
                assert(t1.last() == orig[i as int]);
                assert(taken@[0] == orig[i as int]);
                assert(old(self).inner.processes@[i as int].node < old(self).inner.output@.len());
                // the node of the process handled now is fresh this tick
                assert forall|j: int| 0 <= j < self.inner.output@.len() && !live_node(t1, j)
                    implies !live_node(t0, j) && orig[i as int].node != j by {
                    if live_node(t0, j) {
                        let w = choose|w: int| 0 <= w < t0.len() && t0[w].node as int == j;
                        assert(t1[w].node as int == j);
                        assert(live_node(t1, j));
                    }
                    assert(t1[i as int].node == orig[i as int].node);
                    if orig[i as int].node == j {
                        assert(live_node(t1, j));
                    }
                }
            }
            let p = taken.remove(0);
            proof {
                assert(taken@ =~= orig.subrange(i as int + 1, total as int));
            }
            let ev = &events[i];
            let ghost out0 = self.inner.output@;
            if ev.stdout.len() > 0 || ev.stderr.len() > 0 {
                proof {
                    if silent(events@) {
                        assert(events@[i as int].stdout@.len() == 0);
                        assert(events@[i as int].stderr@.len() == 0);
                        assert(false);
                    }
                }
                let rec = &mut self.inner.output[p.node];
                rec.absorb(&ev.stdout, &ev.stderr);
            } else {
                proof {
                    assert(out0[p.node as int].stdout@ + events@[i as int].stdout@
                        =~= out0[p.node as int].stdout@);
                    assert(out0[p.node as int].stderr@ + events@[i as int].stderr@
                        =~= out0[p.node as int].stderr@);
                }
            }
            proof {
                // the tick touched only this node's record, and this node was
                // untouched so far
                assert(!live_node(t0, p.node as int)) by {
                    if live_node(t0, p.node as int) {
                        let w = choose|w: int|
                            0 <= w < t0.len() && t0[w].node as int == p.node as int;
                        assert(orig[w].node == orig[i as int].node);
                        assert(false);
                    }
                }
                assert(out0[p.node as int] == old(self).inner.output@[p.node as int]);
                assert forall|ii: int| 0 <= ii < i + 1 implies {
                    let id = (#[trigger] orig[ii]).node as int;
                    &&& self.inner.output@[id].stdout@ == old(self).inner.output@[id].stdout@
                        + events@[ii].stdout@
                    &&& self.inner.output@[id].stderr@ == old(self).inner.output@[id].stderr@
                        + events@[ii].stderr@
                } by {
                    if ii < i {
                        assert(orig[ii].node != orig[i as int].node);
                        assert(self.inner.output@[orig[ii].node as int] == out0[orig[ii].node as int]);
                    }
                }
            }
            if let Some(st) = ev.status {
                proof {
                    if silent(events@) {
                        assert(events@[i as int].status is None);
                        assert(false);
                    }
                }
                let ghost g0 = self.inner.graves@;
                self.inner.graves.push((p.node, st));
                proof {
                    assert(reaped(t1, events@) =~= reaped(t0, events@).push(
                        (orig[i as int].node, events@[i as int].status->0),
                    ));
                    assert(self.inner.graves@ =~= old(self).inner.graves@ + reaped(t1, events@));
                    assert(surviving(t1, events@) =~= surviving(t0, events@));
                    assert forall|a: int, b: int|
                        0 <= a < b < self.inner.graves@.len() implies (
                    #[trigger] self.inner.graves@[a]).0 != (#[trigger] self.inner.graves@[b]).0 by {
                        if b < g0.len() {
                            assert(self.inner.graves@[a] == g0[a]);
                            assert(self.inner.graves@[b] == g0[b]);
                        } else {
                            assert(self.inner.graves@[b].0 == p.node);
                            assert(self.inner.graves@[a] == g0[a]);
                            assert(!buried_node(g0, orig[i as int].node as int));
                        }
                    }
                    assert forall|j: int| 0 <= j < survivors@.len() implies !buried_node(
                        self.inner.graves@,
                        (#[trigger] survivors@[j]).node as int,
                    ) by {
                        let ii = choose|ii: int| 0 <= ii < i && survivors@[j] == orig[ii];
                        assert(orig[ii].node != orig[i as int].node);
                        if buried_node(self.inner.graves@, survivors@[j].node as int) {
                            let w = choose|w: int|
                                0 <= w < self.inner.graves@.len() && self.inner.graves@[w].0 as int
                                    == survivors@[j].node as int;
                            if w < g0.len() {
                                assert(self.inner.graves@[w] == g0[w]);
                                assert(buried_node(g0, survivors@[j].node as int));
                            }
                        }
                    }
                    assert forall|ii: int| i + 1 <= ii < total implies !buried_node(
                        self.inner.graves@,
                        (#[trigger] orig[ii]).node as int,
                    ) by {
                        assert(orig[ii].node != orig[i as int].node);
                        if buried_node(self.inner.graves@, orig[ii].node as int) {
                            let w = choose|w: int|
                                0 <= w < self.inner.graves@.len() && self.inner.graves@[w].0 as int
                                    == orig[ii].node as int;
                            if w < g0.len() {
                                assert(self.inner.graves@[w] == g0[w]);
                                assert(buried_node(g0, orig[ii].node as int));
                            }
                        }
                    }
                }
            } else {
                let ghost s0 = survivors@;
                survivors.push(p);
                proof {
                    assert(surviving(t1, events@) =~= s0.push(orig[i as int]));
                    assert(reaped(t1, events@) =~= reaped(t0, events@));
                    assert forall|j: int| 0 <= j < survivors@.len() implies exists|ii: int|
                        0 <= ii < i + 1 && #[trigger] survivors@[j] == orig[ii] by {
                        if j < s0.len() {
                            assert(survivors@[j] == s0[j]);
                            let ii = choose|ii: int| 0 <= ii < i && s0[j] == orig[ii];
                            assert(survivors@[j] == orig[ii]);
                        } else {
                            assert(survivors@[j] == orig[i as int]);
                        }
                    }
                    assert forall|a: int, b: int|
                        0 <= a < b < survivors@.len() implies (#[trigger] survivors@[a]).node != (
                    #[trigger] survivors@[b]).node by {
                        if b < s0.len() {
                            assert(survivors@[a] == s0[a]);
                            assert(survivors@[b] == s0[b]);
                        } else {
                            assert(survivors@[b] == orig[i as int]);
                            assert(survivors@[a] == s0[a]);
                            let ii = choose|ii: int| 0 <= ii < i && s0[a] == orig[ii];
                            assert(orig[ii].node != orig[i as int].node);
                        }
                    }
                    if silent(events@) {
                        assert(survivors@ =~= t1);
                    }
                }
            }
            i = i + 1;
        }
        proof {
            assert(orig.take(total as int) =~= orig);
        }
        self.inner.processes = survivors;

        let ghost newps = self.inner.processes@;
        let ghost graves1 = self.inner.graves@;
        let ghost output1 = self.inner.output@;
        let mut dead: Vec<usize> = Vec::new();
        let len = self.inner.resources.len();
        let mut r: usize = 0;
        while r < len
            invariant
                old(self).inner.wf(),
                orig == old(self).inner.processes@,
                len == self.inner.resources@.len(),
                len == old(self).inner.resources@.len(),
                r <= len,
                self.graph == old(self).graph,
                self.inner.processes@ == newps,
                newps == surviving(orig, events@),
                self.inner.graves@ == graves1,
                self.inner.output@ == output1,
                forall|j: int|
                    0 <= j < newps.len() ==> exists|ii: int|
                        0 <= ii < orig.len() && #[trigger] newps[j] == orig[ii],
                forall|rr: int|
                    0 <= rr < len ==> (#[trigger] self.inner.resources@[rr]).path == old(self).inner.resources@[rr].path,
                forall|rr: int|
                    0 <= rr < r ==> ((#[trigger] self.inner.resources@[rr]).alive <==> referenced(
                        newps,
                        rr,
                    )),
                forall|rr: int|
                    r <= rr < len ==> (#[trigger] self.inner.resources@[rr]).alive == old(self).inner.resources@[rr].alive,
                forall|m: int|
                    0 <= m < dead@.len() ==> (#[trigger] dead@[m]) < r && old(self).inner.resources@[dead@[m] as int].alive && !self.inner.resources@[dead@[m] as int].alive,
                forall|rr: int|
                    0 <= rr < r && old(self).inner.resources@[rr].alive && !referenced(newps, rr)
                        ==> dead@.contains(rr as usize),
                forall|m1: int, m2: int| 0 <= m1 < m2 < dead@.len() ==> dead@[m1] < dead@[m2],
                silent(events@) ==> {
                    &&& newps == orig
                    &&& self.inner.resources@ == old(self).inner.resources@
                    &&& dead@.len() == 0
                },
            decreases len - r,
        {
            if self.inner.resources[r].alive {
                if !referenced_by(&self.inner.processes, r) {
                    proof {
                        if silent(events@) {
                            assert(referenced(orig, r as int));
                            assert(false);
                        }
                    }
                    let rec = &mut self.inner.resources[r];
                    rec.alive = false;
                    let ghost pre = dead@;
                    dead.push(r);
                    proof {
                        assert forall|rr: int|
                            0 <= rr < r + 1 && old(self).inner.resources@[rr].alive && !referenced(
                                newps,
                                rr,
                            ) implies dead@.contains(rr as usize) by {
                            if rr < r {
                                assert(pre.contains(rr as usize));
                                let m = choose|m: int|
                                    0 <= m < pre.len() && pre[m] == rr as usize;
                                assert(dead@[m] == rr as usize);
                            } else {
                                assert(dead@[dead@.len() - 1] == r as usize);
                            }
                        }
                    }
                }
            } else {
                proof {
                    assert(!referenced(orig, r as int));
                    assert(!referenced(newps, r as int)) by {
                        if referenced(newps, r as int) {
                            let j = choose|j: int|
                                0 <= j < newps.len() && proc_references(newps[j], r as int);
                            let ii = choose|ii: int| 0 <= ii < orig.len() && newps[j] == orig[ii];
                            assert(proc_references(orig[ii], r as int));
                            assert(referenced(orig, r as int));
                        }
                    }
                }
            }
            r = r + 1;
        }

        proof {
            // the run's node set is conserved, and the new state is
            // well-formed
            assert forall|id: int|
                #[trigger] started_node(self.inner, id) <==> started_node(
                old(self).inner,
                id,
            ) by {
                lemma_tick_conserves_nodes(orig, events@, id);
                lemma_buried_concat(old(self).inner.graves@, reaped(orig, events@), id);
            }
            assert forall|j: int|
                0 <= j < self.inner.processes@.len() implies (#[trigger] self.inner.processes@[j]).node
                < self.inner.output@.len() && proc_in_range(
                self.inner.processes@[j],
                self.inner.resources@.len() as int,
            ) by {
                let ii = choose|ii: int| 0 <= ii < orig.len() && newps[j] == orig[ii];
                assert(proc_in_range(orig[ii], old(self).inner.resources@.len() as int));
            }
            assert forall|j: int|
                0 <= j < self.inner.processes@.len() implies !buried_node(
                self.inner.graves@,
                (#[trigger] self.inner.processes@[j]).node as int,
            ) by {
            }
            assert(self.inner.wf());
            // the output clause over events follows from the one over
            // process nodes
            assert forall|i2: int| 0 <= i2 < events@.len() implies {
                let id = (#[trigger] events@[i2]).node as int;
                &&& self.inner.output@[id].stdout@ == old(self).inner.output@[id].stdout@
                    + events@[i2].stdout@
                &&& self.inner.output@[id].stderr@ == old(self).inner.output@[id].stderr@
                    + events@[i2].stderr@
            } by {
                assert(events@[i2].node == orig[i2].node);
            }
        }
        dead
    }

    /// Clears the accumulated run state an operator may ask to forget:
    /// every recorded exit status, and the captured output of every
    /// node. The live process table and the run's resources are kept,
    /// so a run in flight goes on undisturbed.
    pub fn clear_state(&mut self)
        requires
            old(self).inner.wf(),
        ensures
            final(self).graph == old(self).graph,
            final(self).inner.processes@ == old(self).inner.processes@,
            final(self).inner.resources@ == old(self).inner.resources@,
            final(self).inner.graves@.len() == 0,
            final(self).inner.output@.len() == old(self).inner.output@.len(),
            forall|j: int|
                0 <= j < final(self).inner.output@.len() ==> {
                    let rec = #[trigger] final(self).inner.output@[j];
                    rec.node == j && rec.stdout@.len() == 0 && rec.stderr@.len() == 0
                },
            final(self).inner.wf(),
    {
        self.inner.graves.clear();
        let len = self.inner.output.len();
        let mut j: usize = 0;
        while j < len
            invariant
                old(self).inner.wf(),
                len == self.inner.output@.len(),
                len == old(self).inner.output@.len(),
                j <= len,
                self.graph == old(self).graph,
                self.inner.processes@ == old(self).inner.processes@,
                self.inner.resources@ == old(self).inner.resources@,
                self.inner.graves@.len() == 0,
                forall|jj: int|
                    0 <= jj < j ==> {
                        let rec = #[trigger] self.inner.output@[jj];
                        rec.node == jj && rec.stdout@.len() == 0 && rec.stderr@.len() == 0
                    },
                forall|jj: int|
                    j <= jj < len ==> #[trigger] self.inner.output@[jj] == old(self).inner.output@[jj],
            decreases len - j,
        {
            let rec = &mut self.inner.output[j];
            rec.stdout = Vec::new();
            rec.stderr = Vec::new();
            j = j + 1;
        }
    }

    /// Unconditionally drops every live process of the run, releasing
    /// the run's resources: a hard stop, with no termination signal and
    /// no waiting. Returns the identifiers of the resources that were
    /// still alive; their filesystem objects are now to be removed.
    /// Killing with no live process is a no-op: no error, no state
    /// change, nothing to remove.
    pub fn kill_processes(&mut self) -> (dead: Vec<usize>)
        requires
            old(self).inner.wf(),
        ensures
            final(self).graph == old(self).graph,
            final(self).inner.processes@.len() == 0,
            final(self).inner.graves@ == old(self).inner.graves@,
            final(self).inner.output@ == old(self).inner.output@,
            final(self).inner.resources@.len() == old(self).inner.resources@.len(),
            forall|r: int|
                0 <= r < old(self).inner.resources@.len() ==> (#[trigger] final(self).inner.resources@[r]).path == old(self).inner.resources@[r].path,
            forall|r: int|
                0 <= r < old(self).inner.resources@.len() ==> !(#[trigger] final(self).inner.resources@[r]).alive,
            forall|m: int|
                0 <= m < dead@.len() ==> (#[trigger] dead@[m]) < old(self).inner.resources@.len()
                    && old(self).inner.resources@[dead@[m] as int].alive,
            forall|r: int|
                0 <= r < old(self).inner.resources@.len() && old(self).inner.resources@[r].alive
                    ==> dead@.contains(r as usize),
            forall|m1: int, m2: int| 0 <= m1 < m2 < dead@.len() ==> dead@[m1] < dead@[m2],
            final(self).inner.wf(),
            old(self).inner.processes@.len() == 0 ==> {
                &&& final(self).inner.processes@ == old(self).inner.processes@
                &&& final(self).inner.resources@ == old(self).inner.resources@
                &&& dead@.len() == 0
            },
    {
        self.inner.processes.clear();
        let mut dead: Vec<usize> = Vec::new();
        let len = self.inner.resources.len();
        let mut r: usize = 0;
        while r < len
            invariant
                old(self).inner.wf(),
                len == self.inner.resources@.len(),
                len == old(self).inner.resources@.len(),
                r <= len,
                self.graph == old(self).graph,
                self.inner.processes@.len() == 0,
                self.inner.graves@ == old(self).inner.graves@,
                self.inner.output@ == old(self).inner.output@,
                forall|rr: int|
                    0 <= rr < len ==> (#[trigger] self.inner.resources@[rr]).path == old(self).inner.resources@[rr].path,
                forall|rr: int| 0 <= rr < r ==> !(#[trigger] self.inner.resources@[rr]).alive,
                forall|rr: int|
                    r <= rr < len ==> (#[trigger] self.inner.resources@[rr]).alive == old(self).inner.resources@[rr].alive,
                forall|m: int|
                    0 <= m < dead@.len() ==> (#[trigger] dead@[m]) < r && old(self).inner.resources@[dead@[m] as int].alive,
                forall|rr: int|
                    0 <= rr < r && old(self).inner.resources@[rr].alive ==> dead@.contains(
                        rr as usize,
                    ),
                forall|m1: int, m2: int| 0 <= m1 < m2 < dead@.len() ==> dead@[m1] < dead@[m2],
                old(self).inner.processes@.len() == 0 ==> {
                    &&& self.inner.resources@ == old(self).inner.resources@
                    &&& dead@.len() == 0
                },
            decreases len - r,
        {
            if self.inner.resources[r].alive {
                proof {
                    if old(self).inner.processes@.len() == 0 {
                        assert(!referenced(old(self).inner.processes@, r as int));
                        assert(!old(self).inner.resources@[r as int].alive);
                        assert(false);
                    }
                }
                let rec = &mut self.inner.resources[r];
                rec.alive = false;
                let ghost pre = dead@;
                dead.push(r);
                proof {
                    assert forall|rr: int|
                        0 <= rr < r + 1 && old(self).inner.resources@[rr].alive
                        implies dead@.contains(rr as usize) by {
                        if rr < r {
                            assert(pre.contains(rr as usize));
                            let m = choose|m: int| 0 <= m < pre.len() && pre[m] == rr as usize;
                            assert(dead@[m] == rr as usize);
                        } else {
                            assert(dead@[dead@.len() - 1] == r as usize);
                        }
                    }
                }
            }
            r = r + 1;
        }
        proof {
            assert forall|rr: int|
                0 <= rr < self.inner.resources@.len() implies ((
            #[trigger] self.inner.resources@[rr]).alive <==> referenced(
                self.inner.processes@,
                rr,
            )) by {
                assert(!referenced(self.inner.processes@, rr));
            }
        }
        dead
    }
}

/// The processes of `ps` that survive a tick observing `evs`: those
/// whose event carries no exit status, in table order.
pub open spec fn surviving(ps: Seq<Process>, evs: Seq<TickEvent>) -> Seq<Process>
    decreases ps.len(),
{
    if ps.len() == 0 {
        Seq::empty()
    } else {
        let pre = surviving(ps.drop_last(), evs);
        if evs[ps.len() - 1].status is None {
            pre.push(ps.last())
        } else {
            pre
        }
    }
}

/// The exit statuses a tick observing `evs` records: one entry per
/// process whose event carries an exit status, in process order.
pub open spec fn reaped(ps: Seq<Process>, evs: Seq<TickEvent>) -> Seq<(usize, ExitStatus)>
    decreases ps.len(),
{
    if ps.len() == 0 {
        Seq::empty()
    } else {
        let pre = reaped(ps.drop_last(), evs);
        if evs[ps.len() - 1].status is Some {
            pre.push((ps.last().node, evs[ps.len() - 1].status->0))
        } else {
            pre
        }
    }
}

/// Whether a tick observed nothing at all: no output drained and no
/// process terminated.
pub open spec fn silent(evs: Seq<TickEvent>) -> bool {
    forall|i: int|
        0 <= i < evs.len() ==> {
            let ev = #[trigger] evs[i];
            ev.stdout@.len() == 0 && ev.stderr@.len() == 0 && ev.status is None
        }
}

/// A node has an exit status in the concatenation of two records
/// exactly when it has one in either part.
pub proof fn lemma_buried_concat(a: Seq<(usize, ExitStatus)>, b: Seq<(usize, ExitStatus)>, id: int)
    ensures
        buried_node(a + b, id) <==> (buried_node(a, id) || buried_node(b, id)),
{
    if buried_node(a + b, id) {
        let w = choose|w: int| 0 <= w < (a + b).len() && (a + b)[w].0 as int == id;
        if w < a.len() {
            assert(a[w] == (a + b)[w]);
            assert(buried_node(a, id));
        } else {
            assert(b[w - a.len()] == (a + b)[w]);
            assert(buried_node(b, id));
        }
    }
    if buried_node(a, id) {
        let w = choose|w: int| 0 <= w < a.len() && a[w].0 as int == id;
        assert((a + b)[w] == a[w]);
        assert(buried_node(a + b, id));
    }
    if buried_node(b, id) {
        let w = choose|w: int| 0 <= w < b.len() && b[w].0 as int == id;
        assert((a + b)[a.len() + w] == b[w]);
        assert(buried_node(a + b, id));
    }
}

/// A tick loses no node and invents none: a node was live before the
/// tick exactly when, after it, the node is still live or has just
/// received its exit status.
pub proof fn lemma_tick_conserves_nodes(ps: Seq<Process>, evs: Seq<TickEvent>, id: int)
    ensures
        live_node(ps, id) <==> (live_node(surviving(ps, evs), id) || buried_node(
            reaped(ps, evs),
            id,
        )),
    decreases ps.len(),
{
    if ps.len() == 0 {
    } else {
        let dl = ps.drop_last();
        lemma_tick_conserves_nodes(dl, evs, id);
        let s = surviving(ps, evs);
        let r = reaped(ps, evs);
        let pre_s = surviving(dl, evs);
        let pre_r = reaped(dl, evs);
        let last = ps.len() - 1;
        if live_node(ps, id) {
            let w = choose|w: int| 0 <= w < ps.len() && ps[w].node as int == id;
            if w < last {
                assert(dl[w] == ps[w]);
                assert(live_node(dl, id));
                if live_node(pre_s, id) {
                    let u = choose|u: int| 0 <= u < pre_s.len() && pre_s[u].node as int == id;
                    assert(s[u] == pre_s[u]);
                    assert(live_node(s, id));
                } else {
                    let u = choose|u: int| 0 <= u < pre_r.len() && pre_r[u].0 as int == id;
                    assert(r[u] == pre_r[u]);
                    assert(buried_node(r, id));
                }
            } else {
                if evs[last].status is None {
                    assert(s[s.len() - 1] == ps.last());
                    assert(live_node(s, id));
                } else {
                    assert(r[r.len() - 1].0 == ps.last().node);
                    assert(buried_node(r, id));
                }
            }
        }
        if live_node(s, id) {
            let w = choose|w: int| 0 <= w < s.len() && s[w].node as int == id;
            if evs[last].status is None && w == s.len() - 1 {
                assert(s[w] == ps.last());
                assert(ps[last].node as int == id);
                assert(live_node(ps, id));
            } else {
                assert(s[w] == pre_s[w]);
                assert(live_node(pre_s, id));
                let u = choose|u: int| 0 <= u < dl.len() && dl[u].node as int == id;
                assert(ps[u] == dl[u]);
                assert(live_node(ps, id));
            }
        }
        if buried_node(r, id) {
            let w = choose|w: int| 0 <= w < r.len() && r[w].0 as int == id;
            if evs[last].status is Some && w == r.len() - 1 {
                assert(r[w].0 == ps.last().node);
                assert(ps[last].node as int == id);
                assert(live_node(ps, id));
            } else {
                assert(r[w] == pre_r[w]);
                assert(buried_node(pre_r, id));
                let u = choose|u: int| 0 <= u < dl.len() && dl[u].node as int == id;
                assert(ps[u] == dl[u]);
                assert(live_node(ps, id));
            }
        }
    }
}

impl OutputRecord {
    /// Appends one tick's drained bytes to the record.
    fn absorb(&mut self, stdout: &Vec<u8>, stderr: &Vec<u8>)
        ensures
            final(self).node == old(self).node,
            final(self).stdout@ == old(self).stdout@ + stdout@,
            final(self).stderr@ == old(self).stderr@ + stderr@,
    {
        let mut j: usize = 0;
        proof {
            assert(self.stdout@ =~= old(self).stdout@ + stdout@.take(0));
        }
        while j < stdout.len()
            invariant
                j <= stdout@.len(),
                self.node == old(self).node,
                self.stderr@ == old(self).stderr@,
                self.stdout@ == old(self).stdout@ + stdout@.take(j as int),
            decreases stdout@.len() - j,
        {
            self.stdout.push(stdout[j]);
            proof {
                assert(old(self).stdout@ + stdout@.take(j + 1) =~= (old(self).stdout@
                    + stdout@.take(j as int)).push(stdout@[j as int]));
            }
            j = j + 1;
        }
        proof {
            assert(stdout@.take(stdout@.len() as int) =~= stdout@);
            assert(self.stderr@ =~= old(self).stderr@ + stderr@.take(0));
        }
        let mut j: usize = 0;
        while j < stderr.len()
            invariant
                j <= stderr@.len(),
                self.node == old(self).node,
                self.stdout@ == old(self).stdout@ + stdout@,
                self.stderr@ == old(self).stderr@ + stderr@.take(j as int),
            decreases stderr@.len() - j,
        {
            self.stderr.push(stderr[j]);
            proof {
                assert(old(self).stderr@ + stderr@.take(j + 1) =~= (old(self).stderr@
                    + stderr@.take(j as int)).push(stderr@[j as int]));
            }
            j = j + 1;
        }
        proof {
            assert(stderr@.take(stderr@.len() as int) =~= stderr@);
        }
    }
}

/// Whether some process of `ps` still holds resource `r`.
fn referenced_by(ps: &Vec<Process>, r: usize) -> (b: bool)
    ensures
        b == referenced(ps@, r as int),
{
    let mut i: usize = 0;
    while i < ps.len()
        invariant
            i <= ps@.len(),
            forall|ii: int| 0 <= ii < i ==> !proc_references(#[trigger] ps@[ii], r as int),
        decreases ps@.len() - i,
    {
        let p = &ps[i];
        if p.script == r {
            proof {
                assert(proc_references(ps@[i as int], r as int));
            }
            return true;
        }
        let mut j: usize = 0;
        while j < p.pipes.len()
            invariant
                j <= p.pipes@.len(),
                i < ps@.len(),
                p == &ps@[i as int],
                forall|jj: int| 0 <= jj < j ==> (#[trigger] p.pipes@[jj]) != r,
            decreases p.pipes@.len() - j,
        {
            if p.pipes[j] == r {
                proof {
                    assert(p.pipes@[j as int] == r);
                    assert(proc_references(ps@[i as int], r as int));
                }
                return true;
            }
            j = j + 1;
        }
        proof {
            assert(!proc_references(ps@[i as int], r as int));
        }
        i = i + 1;
    }
    false
}

/// A drained run is fully cleaned up: once no process is left, every
/// script and pipe filesystem object of the run has been released, and
/// the exit-status record holds at most one entry per node.
pub proof fn lemma_drained_run_clean(inner: ProjectInner)
    requires
        inner.wf(),
        inner.processes@.len() == 0,
    ensures
        forall|r: int| 0 <= r < inner.resources@.len() ==> !(#[trigger] inner.resources@[r]).alive,
        forall|i: int, j: int|
            0 <= i < j < inner.graves@.len() ==> (#[trigger] inner.graves@[i]).0 != (
            #[trigger] inner.graves@[j]).0,
{
    assert forall|r: int|
        0 <= r < inner.resources@.len() implies !(#[trigger] inner.resources@[r]).alive by {
        assert(!referenced(inner.processes@, r));
    }
}

} // verus!
