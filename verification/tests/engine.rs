use shell_graph::engine::{ExitStatus, Project, StartError, StartPlan, TickEvent};
use shell_graph::graph::{Node, PipeKind};

fn node(script: &str) -> Node {
    Node { script: script.to_string() }
}

fn running_event(node: usize) -> TickEvent {
    TickEvent { node, stdout: Vec::new(), stderr: Vec::new(), status: None }
}

fn exit_event(node: usize, code: i32) -> TickEvent {
    TickEvent { node, stdout: Vec::new(), stderr: Vec::new(), status: Some(ExitStatus { code }) }
}

/// The environment of one launch as (name, value) string pairs.
fn env_of(plan: &StartPlan, node: usize) -> Vec<(String, String)> {
    plan.launches[node].env.clone()
}

#[test]
fn start_provisions_scripts_pipes_and_launches() {
    let mut p = Project::default();
    let a = p.graph.add_node("Node 1".to_string(), node("#!/bin/sh\ntrue\n"));
    let b = p.graph.add_node("Node 2".to_string(), node("#!/bin/sh\ntrue\n"));
    let out = p.graph.add_output_param(a, "out".to_string(), PipeKind::Single);
    let inp = p.graph.add_input_param(b, "in".to_string(), PipeKind::Single);
    p.graph.add_connection(out, inp);

    let plan = p.start("/tmp/scratch").unwrap();
    assert_eq!(plan.scripts.len(), 2);
    assert_eq!(plan.pipes.len(), 1);
    assert_eq!(plan.launches.len(), 2);
    assert_eq!(plan.scripts[0].source, "#!/bin/sh\ntrue\n");
    assert_eq!(plan.launches[0].program, plan.scripts[0].file.0);
    assert_eq!(plan.launches[1].program, plan.scripts[1].file.0);
    assert_eq!(p.inner.processes.len(), 2);
    assert_eq!(p.inner.graves.len(), 0);
    // one empty output record per node
    assert_eq!(p.inner.output.len(), 2);
    assert!(p.inner.output[0].stdout.is_empty());
    assert!(p.inner.output[1].stdout.is_empty());
    // 2 scripts + 1 pipe provisioned, all alive
    assert_eq!(p.inner.resources.len(), 3);
    assert!(p.inner.resources.iter().all(|r| r.alive));
}

#[test]
fn fresh_paths_live_under_scratch_with_fixed_length() {
    let mut p = Project::default();
    let a = p.graph.add_node("a".to_string(), node("#!/bin/sh\n"));
    let b = p.graph.add_node("b".to_string(), node("#!/bin/sh\n"));
    let out = p.graph.add_output_param(a, "out".to_string(), PipeKind::Single);
    let inp = p.graph.add_input_param(b, "in".to_string(), PipeKind::Single);
    p.graph.add_connection(out, inp);

    let scratch = "/tmp/sg";
    let plan = p.start(scratch).unwrap();
    for job in &plan.scripts {
        assert_eq!(job.file.0.chars().count(), scratch.chars().count() + 37);
        assert!(job.file.0.starts_with("/tmp/sg/"));
    }
    for pipe in &plan.pipes {
        assert_eq!(pipe.0.chars().count(), scratch.chars().count() + 37);
        assert!(pipe.0.starts_with("/tmp/sg/"));
    }
    // the two scripts and the pipe are distinct objects
    assert_ne!(plan.scripts[0].file.0, plan.scripts[1].file.0);
    assert_ne!(plan.scripts[0].file.0, plan.pipes[0].0);
}

#[test]
fn single_edge_exposes_one_shared_pipe() {
    let mut p = Project::default();
    let a = p.graph.add_node("producer".to_string(), node("#!/bin/sh\n"));
    let b = p.graph.add_node("consumer".to_string(), node("#!/bin/sh\n"));
    let out = p.graph.add_output_param(a, "out".to_string(), PipeKind::Single);
    let inp = p.graph.add_input_param(b, "in".to_string(), PipeKind::Single);
    p.graph.add_connection(out, inp);

    let plan = p.start("/tmp/scratch").unwrap();
    let pipe_path = plan.pipes[0].0.clone();
    assert_eq!(env_of(&plan, a), vec![("OUT_out".to_string(), pipe_path.clone())]);
    assert_eq!(env_of(&plan, b), vec![("IN_in".to_string(), pipe_path)]);
}

#[test]
fn fan_out_serves_each_edge_its_own_pipe() {
    let mut p = Project::default();
    let a = p.graph.add_node("producer".to_string(), node("#!/bin/sh\n"));
    let b = p.graph.add_node("left".to_string(), node("#!/bin/sh\n"));
    let c = p.graph.add_node("right".to_string(), node("#!/bin/sh\n"));
    let out = p.graph.add_output_param(a, "out".to_string(), PipeKind::Many);
    let in_b = p.graph.add_input_param(b, "in".to_string(), PipeKind::Single);
    let in_c = p.graph.add_input_param(c, "in".to_string(), PipeKind::Single);
    p.graph.add_connection(out, in_b);
    p.graph.add_connection(out, in_c);

    let plan = p.start("/tmp/scratch").unwrap();
    assert_eq!(plan.pipes.len(), 2);
    let p0 = plan.pipes[0].0.clone();
    let p1 = plan.pipes[1].0.clone();
    assert_ne!(p0, p1);
    // the producer sees both pipes on its port, in edge order
    assert_eq!(env_of(&plan, a), vec![("OUT_out".to_string(), format!("{},{}", p0, p1))]);
    // each consumer sees exactly its own pipe
    assert_eq!(env_of(&plan, b), vec![("IN_in".to_string(), p0)]);
    assert_eq!(env_of(&plan, c), vec![("IN_in".to_string(), p1)]);
}

#[test]
fn fan_in_lists_both_paths_never_merging() {
    let mut p = Project::default();
    let a = p.graph.add_node("left".to_string(), node("#!/bin/sh\n"));
    let b = p.graph.add_node("right".to_string(), node("#!/bin/sh\n"));
    let c = p.graph.add_node("consumer".to_string(), node("#!/bin/sh\n"));
    let out_a = p.graph.add_output_param(a, "out".to_string(), PipeKind::Single);
    let out_b = p.graph.add_output_param(b, "out".to_string(), PipeKind::Single);
    let inp = p.graph.add_input_param(c, "in".to_string(), PipeKind::Many);
    p.graph.add_connection(out_a, inp);
    p.graph.add_connection(out_b, inp);

    let plan = p.start("/tmp/scratch").unwrap();
    assert_eq!(plan.pipes.len(), 2);
    let p0 = plan.pipes[0].0.clone();
    let p1 = plan.pipes[1].0.clone();
    assert_ne!(p0, p1);
    // the consumer must read each listed path on its own
    assert_eq!(env_of(&plan, c), vec![("IN_in".to_string(), format!("{},{}", p0, p1))]);
    assert_eq!(env_of(&plan, a), vec![("OUT_out".to_string(), p0)]);
    assert_eq!(env_of(&plan, b), vec![("OUT_out".to_string(), p1)]);
}

#[test]
fn ports_with_no_edges_resolve_to_empty_lists() {
    let mut p = Project::default();
    let a = p.graph.add_node("lonely".to_string(), node("#!/bin/sh\n"));
    p.graph.add_output_param(a, "out".to_string(), PipeKind::Single);
    p.graph.add_input_param(a, "in".to_string(), PipeKind::Single);

    let plan = p.start("/tmp/scratch").unwrap();
    assert_eq!(plan.pipes.len(), 0);
    assert_eq!(
        env_of(&plan, a),
        vec![("IN_in".to_string(), String::new()), ("OUT_out".to_string(), String::new())]
    );
}

#[test]
fn start_is_refused_while_processes_are_live() {
    let mut p = Project::default();
    p.graph.add_node("a".to_string(), node("#!/bin/sh\n"));
    p.start("/tmp/scratch").unwrap();
    assert!(matches!(p.start("/tmp/scratch"), Err(StartError::AlreadyRunning)));
    // the refused start changed nothing
    assert_eq!(p.inner.processes.len(), 1);
    // after a kill, starting is allowed again
    p.kill_processes();
    assert!(p.start("/tmp/scratch").is_ok());
}

#[test]
fn run_to_completion_cleans_up_every_resource() {
    let mut p = Project::default();
    let a = p.graph.add_node("one".to_string(), node("#!/bin/sh\n"));
    let b = p.graph.add_node("two".to_string(), node("#!/bin/sh\n"));
    let out = p.graph.add_output_param(a, "out".to_string(), PipeKind::Single);
    let inp = p.graph.add_input_param(b, "in".to_string(), PipeKind::Single);
    p.graph.add_connection(out, inp);

    p.start("/tmp/scratch").unwrap();
    let mut released: Vec<usize> = Vec::new();

    // first tick: node `a` exits, node `b` keeps running
    let events = vec![exit_event(a, 0), running_event(b)];
    released.extend(p.tick_processes(&events));
    assert_eq!(p.inner.processes.len(), 1);
    // the pipe is still held by `b`, the script of `a` is not
    assert!(released.contains(&0));

    // second tick: node `b` exits too
    let events = vec![exit_event(b, 0)];
    released.extend(p.tick_processes(&events));
    assert_eq!(p.inner.processes.len(), 0);

    // exactly one exit status per started node
    let mut buried: Vec<usize> = p.inner.graves.iter().map(|g| g.0).collect();
    buried.sort();
    assert_eq!(buried, vec![a, b]);

    // every resource of the run was released exactly once
    released.sort();
    assert_eq!(released, vec![0, 1, 2]);
    assert!(p.inner.resources.iter().all(|r| !r.alive));
}

#[test]
fn kill_drops_everything_and_is_idempotent() {
    let mut p = Project::default();
    let a = p.graph.add_node("a".to_string(), node("#!/bin/sh\n"));
    let b = p.graph.add_node("b".to_string(), node("#!/bin/sh\n"));
    let out = p.graph.add_output_param(a, "out".to_string(), PipeKind::Single);
    let inp = p.graph.add_input_param(b, "in".to_string(), PipeKind::Single);
    p.graph.add_connection(out, inp);

    // killing before any start is a no-op
    assert_eq!(p.kill_processes(), Vec::<usize>::new());

    p.start("/tmp/scratch").unwrap();
    let mut dead = p.kill_processes();
    dead.sort();
    assert_eq!(dead, vec![0, 1, 2]);
    assert_eq!(p.inner.processes.len(), 0);

    // killing again: no error, no state change, nothing to remove
    let graves_before = p.inner.graves.len();
    let dead_again = p.kill_processes();
    assert_eq!(dead_again, Vec::<usize>::new());
    assert_eq!(p.inner.graves.len(), graves_before);
    assert!(p.inner.resources.iter().all(|r| !r.alive));
}

#[test]
fn silent_tick_changes_nothing() {
    let mut p = Project::default();
    let a = p.graph.add_node("quiet".to_string(), node("#!/bin/sh\nsleep 10\n"));
    p.start("/tmp/scratch").unwrap();

    let dead = p.tick_processes(&vec![running_event(a)]);
    assert_eq!(dead, Vec::<usize>::new());
    assert_eq!(p.inner.processes.len(), 1);
    assert_eq!(p.inner.graves.len(), 0);
    assert!(p.inner.output[a].stdout.is_empty());
    assert!(p.inner.output[a].stderr.is_empty());
    assert!(p.inner.resources.iter().all(|r| r.alive));
}

#[test]
fn output_accumulates_across_ticks() {
    let mut p = Project::default();
    let a = p.graph.add_node("talker".to_string(), node("#!/bin/sh\n"));
    p.start("/tmp/scratch").unwrap();

    let ev = TickEvent {
        node: a,
        stdout: b"hel".to_vec(),
        stderr: b"warn".to_vec(),
        status: None,
    };
    p.tick_processes(&vec![ev]);
    let ev = TickEvent { node: a, stdout: b"lo".to_vec(), stderr: Vec::new(), status: None };
    p.tick_processes(&vec![ev]);
    assert_eq!(p.inner.output[a].stdout, b"hello".to_vec());
    assert_eq!(p.inner.output[a].stderr, b"warn".to_vec());
    assert_eq!(p.inner.graves.len(), 0);
}

#[test]
fn scenario_two_node_pipeline() {
    // Node 1 writes "hi!" into its output pipe after a pause; Node 2
    // filters it and appends a line of its own.
    let mut p = Project::default();
    let n1 = p.graph.add_node(
        "Node 1".to_string(),
        node("#!/usr/bin/env bash\n(sleep 1; printf \"hi!\") > \"$OUT_out\"\n"),
    );
    let n2 = p.graph.add_node(
        "Node 2".to_string(),
        node("#!/usr/bin/env bash\ngrep '!' < \"$IN_in\"; echo done\n"),
    );
    let out = p.graph.add_output_param(n1, "out".to_string(), PipeKind::Single);
    let inp = p.graph.add_input_param(n2, "in".to_string(), PipeKind::Single);
    p.graph.add_connection(out, inp);

    let plan = p.start("/tmp/scratch").unwrap();
    let pipe_path = plan.pipes[0].0.clone();
    assert_eq!(env_of(&plan, n1), vec![("OUT_out".to_string(), pipe_path.clone())]);
    assert_eq!(env_of(&plan, n2), vec![("IN_in".to_string(), pipe_path)]);

    // during the sleep both processes are silently blocked
    p.tick_processes(&vec![running_event(n1), running_event(n2)]);
    assert_eq!(p.inner.processes.len(), 2);

    // the producer writes, closes its pipe and exits
    p.tick_processes(&vec![exit_event(n1, 0), running_event(n2)]);

    // the consumer emits what it read plus its own line, and exits
    let ev = TickEvent {
        node: n2,
        stdout: b"hi!\ndone\n".to_vec(),
        stderr: Vec::new(),
        status: Some(ExitStatus { code: 0 }),
    };
    p.tick_processes(&vec![ev]);

    assert_eq!(p.inner.processes.len(), 0);
    assert_eq!(p.inner.output[n2].stdout, b"hi!\ndone\n".to_vec());
    let n2_status = p.inner.graves.iter().find(|g| g.0 == n2).unwrap().1;
    assert!(n2_status.success());
    assert!(p.inner.resources.iter().all(|r| !r.alive));
}

#[test]
fn basic_graph_runs_to_completion() {
    // the editor's own smoke graph: an emitter filtered by a receiver
    let mut p = Project::default();
    let emitter = p.graph.add_node(
        "Node 1".to_string(),
        node("#!/usr/bin/env bash\n(echo no; sleep 10s; echo hello, world!; echo no) > $OUT_out\n"),
    );
    let output = p.graph.add_output_param(emitter, "out".to_string(), PipeKind::Single);
    let receiver = p.graph.add_node(
        "Node 2".to_string(),
        node("#!/usr/bin/env bash\ncat $IN_in | grep '!'\necho OK\n"),
    );
    let input = p.graph.add_input_param(receiver, "in".to_string(), PipeKind::Single);
    p.graph.add_connection(output, input);

    p.start("/tmp/scratch").unwrap();
    let mut guard = 0;
    while !p.inner.processes.is_empty() {
        // fabricate what the supervisor would observe: everyone exits on
        // the second tick
        let events: Vec<TickEvent> = p
            .inner
            .processes
            .iter()
            .map(|proc| if guard == 0 { running_event(proc.node) } else { exit_event(proc.node, 0) })
            .collect();
        p.tick_processes(&events);
        guard += 1;
        assert!(guard < 5);
    }
    assert_eq!(p.inner.graves.len(), 2);
    println!("{:#?}", p.inner.output);
}

#[test]
fn clear_forgets_statuses_and_output_only() {
    let mut p = Project::default();
    let a = p.graph.add_node("a".to_string(), node("#!/bin/sh\necho hi\n"));
    p.start("/tmp/scratch").unwrap();
    let ev = TickEvent {
        node: a,
        stdout: b"hi\n".to_vec(),
        stderr: Vec::new(),
        status: Some(ExitStatus { code: 0 }),
    };
    p.tick_processes(&vec![ev]);
    assert_eq!(p.inner.graves.len(), 1);
    assert_eq!(p.inner.output[a].stdout, b"hi\n".to_vec());

    p.clear_state();
    assert_eq!(p.inner.graves.len(), 0);
    assert_eq!(p.inner.output.len(), 1);
    assert!(p.inner.output[a].stdout.is_empty());
    assert!(p.inner.output[a].stderr.is_empty());
    // the graph itself is untouched
    assert_eq!(p.graph.nodes.len(), 1);
}

#[test]
fn set_script_edits_one_node_live() {
    let mut p = Project::default();
    let a = p.graph.add_node("a".to_string(), node("#!/bin/sh\nold\n"));
    let b = p.graph.add_node("b".to_string(), node("#!/bin/sh\nkeep\n"));
    p.graph.set_script(a, "#!/bin/sh\nnew\n".to_string());
    assert_eq!(p.graph.nodes[a].node.script, "#!/bin/sh\nnew\n");
    assert_eq!(p.graph.nodes[a].label, "a");
    assert_eq!(p.graph.nodes[b].node.script, "#!/bin/sh\nkeep\n");
    // the next start materializes the new text
    let plan = p.start("/tmp/scratch").unwrap();
    assert_eq!(plan.scripts[a].source, "#!/bin/sh\nnew\n");
}
