//! Connection resolution and the environment contract.
//!
//! Every edge of the graph is served by one fresh pipe per run, so the
//! pipe of edge `k` is simply the `k`-th pipe of the run. For a node's
//! script, each of its input ports `name` is exposed as the variable
//! `IN_<name>` holding the comma-joined paths of the pipes feeding the
//! port, and each output port as `OUT_<name>` likewise; a port with no
//! edges resolves to the empty list.

use vstd::prelude::*;
use vstd::string::StringExecFns;

use crate::ephemeral::Pipe;
use crate::graph::{edges_on, ports_of, Edge, Graph};

verus! {

/// The paths of a run's pipes, as sequences of characters.
pub open spec fn pipe_views(pipes: Seq<Pipe>) -> Seq<Seq<char>> {
    pipes.map(|j: int, p: Pipe| p.0@)
}

/// The items joined into one string with a comma between neighbours.
/// The engine never merges the items themselves: a script reading a
/// multi-pipe port must open each listed path on its own.
pub open spec fn join_commas(items: Seq<Seq<char>>) -> Seq<char>
    decreases items.len(),
{
    if items.len() == 0 {
        Seq::empty()
    } else if items.len() == 1 {
        items[0]
    } else {
        join_commas(items.drop_last()) + ","@ + items.last()
    }
}

/// The pipe paths bound to one port, in edge order.
pub open spec fn port_pipe_paths(
    conns: Seq<Edge>,
    pipe_paths: Seq<Seq<char>>,
    port: int,
    input_side: bool,
) -> Seq<Seq<char>> {
    edges_on(conns, port, input_side).map(|j: int, k: int| pipe_paths[k])
}

/// The value of a port's environment variable: its pipe paths,
/// comma-joined.
pub open spec fn port_env_value(
    conns: Seq<Edge>,
    pipe_paths: Seq<Seq<char>>,
    port: int,
    input_side: bool,
) -> Seq<char> {
    join_commas(port_pipe_paths(conns, pipe_paths, port, input_side))
}

/// One environment entry: the variable's name (`IN_<port>` or
/// `OUT_<port>`) and its value.
pub open spec fn port_entry(
    g: Graph,
    pipe_paths: Seq<Seq<char>>,
    port: int,
    input_side: bool,
) -> (Seq<char>, Seq<char>) {
    if input_side {
        ("IN_"@ + g.inputs@[port].name@, port_env_value(g.connections@, pipe_paths, port, true))
    } else {
        ("OUT_"@ + g.outputs@[port].name@, port_env_value(g.connections@, pipe_paths, port, false))
    }
}

/// The environment entries for the given ports, in order.
pub open spec fn entries_for(
    g: Graph,
    pipe_paths: Seq<Seq<char>>,
    ports: Seq<int>,
    input_side: bool,
) -> Seq<(Seq<char>, Seq<char>)> {
    ports.map(|j: int, p: int| port_entry(g, pipe_paths, p, input_side))
}

/// The whole environment of one node: entries for its input ports in
/// declaration order, then for its output ports.
pub open spec fn env_entries(g: Graph, pipe_paths: Seq<Seq<char>>, id: int) -> Seq<
    (Seq<char>, Seq<char>),
> {
    entries_for(g, pipe_paths, ports_of(g.inputs@, id), true) + entries_for(
        g,
        pipe_paths,
        ports_of(g.outputs@, id),
        false,
    )
}

/// An environment as the character sequences of its names and values.
pub open spec fn env_views(env: Seq<(String, String)>) -> Seq<(Seq<char>, Seq<char>)> {
    env.map(|j: int, e: (String, String)| (e.0@, e.1@))
}

/// Joining one more item appends a comma (unless the list was empty)
/// and the item.
pub proof fn lemma_join_push(items: Seq<Seq<char>>, x: Seq<char>)
    ensures
        join_commas(items.push(x)) == if items.len() == 0 {
            x
        } else {
            join_commas(items) + ","@ + x
        },
{
    let p = items.push(x);
    assert(p.last() == x);
    assert(p.drop_last() =~= items);
    if items.len() == 0 {
        assert(p.len() == 1);
        assert(p[0] == x);
    }
}

/// A port never has more edges than the graph has.
pub proof fn lemma_edges_on_len(conns: Seq<Edge>, port: int, input_side: bool)
    ensures
        edges_on(conns, port, input_side).len() <= conns.len(),
    decreases conns.len(),
{
    if conns.len() > 0 {
        lemma_edges_on_len(conns.drop_last(), port, input_side);
    }
}

/// An edge that touches a port is listed among that port's edges.
pub proof fn lemma_edges_on_contains(conns: Seq<Edge>, port: int, input_side: bool, k: int)
    requires
        0 <= k < conns.len(),
        input_side ==> conns[k].input == port,
        !input_side ==> conns[k].output == port,
    ensures
        edges_on(conns, port, input_side).contains(k),
    decreases conns.len(),
{
    let pre = edges_on(conns.drop_last(), port, input_side);
    if k == conns.len() - 1 {
        assert(conns.last() == conns[k]);
        assert(edges_on(conns, port, input_side) == pre.push(k));
        assert(edges_on(conns, port, input_side)[pre.len() as int] == k);
    } else {
        assert(conns.drop_last()[k] == conns[k]);
        lemma_edges_on_contains(conns.drop_last(), port, input_side, k);
        let j = choose|j: int| 0 <= j < pre.len() && pre[j] == k;
        assert(edges_on(conns, port, input_side)[j] == k);
    }
}

/// The value of one port's environment variable, computed by walking
/// every edge once and appending the pipe path of each edge that
/// touches the port.
fn port_value(g: &Graph, pipes: &Vec<Pipe>, port: usize, input_side: bool) -> (value: String)
    requires
        pipes@.len() == g.connections@.len(),
    ensures
        value@ == port_env_value(g.connections@, pipe_views(pipes@), port as int, input_side),
{
    let ghost pp = pipe_views(pipes@);
    let mut value = String::new();
    let mut cnt: usize = 0;
    let mut k: usize = 0;
    let e = g.connections.len();
    while k < e
        invariant
            pipes@.len() == g.connections@.len(),
            e == g.connections@.len(),
            pp == pipe_views(pipes@),
            k <= e,
            cnt == edges_on(g.connections@.take(k as int), port as int, input_side).len(),
            value@ == port_env_value(g.connections@.take(k as int), pp, port as int, input_side),
        decreases e - k,
    {
        let ghost c0 = g.connections@.take(k as int);
        let ghost c1 = g.connections@.take(k as int + 1);
        proof {
            assert(c1.drop_last() =~= c0);
            assert(c1.last() == g.connections@[k as int]);
            lemma_edges_on_len(c0, port as int, input_side);
        }
        let edge = g.connections[k];
        let touches = if input_side {
            edge.input == port
        } else {
            edge.output == port
        };
        if touches {
            proof {
                assert(edges_on(c1, port as int, input_side) == edges_on(
                    c0,
                    port as int,
                    input_side,
                ).push(k as int));
                assert(port_pipe_paths(c1, pp, port as int, input_side) =~= port_pipe_paths(
                    c0,
                    pp,
                    port as int,
                    input_side,
                ).push(pp[k as int]));
                lemma_join_push(port_pipe_paths(c0, pp, port as int, input_side), pp[k as int]);
            }
            if cnt > 0 {
                value.append(",");
            } else {
                proof {
                    assert(port_pipe_paths(c0, pp, port as int, input_side).len() == 0);
                    assert(value@ =~= Seq::<char>::empty());
                }
            }
            value.append(pipes[k].0.as_str());
            proof {
                assert(Seq::<char>::empty() + pp[k as int] =~= pp[k as int]);
            }
            cnt = cnt + 1;
        } else {
            proof {
                assert(edges_on(c1, port as int, input_side) == edges_on(
                    c0,
                    port as int,
                    input_side,
                ));
            }
        }
        k = k + 1;
    }
    proof {
        assert(g.connections@.take(e as int) =~= g.connections@);
    }
    value
}

/// The environment entries of one side (input or output ports) of a
/// node, in port-declaration order.
fn side_entries(g: &Graph, pipes: &Vec<Pipe>, id: usize, input_side: bool) -> (env: Vec<
    (String, String),
>)
    requires
        pipes@.len() == g.connections@.len(),
    ensures
        env_views(env@) == entries_for(
            *g,
            pipe_views(pipes@),
            ports_of(if input_side { g.inputs@ } else { g.outputs@ }, id as int),
            input_side,
        ),
{
    let ghost pp = pipe_views(pipes@);
    let ghost pseq = if input_side {
        g.inputs@
    } else {
        g.outputs@
    };
    let mut env: Vec<(String, String)> = Vec::new();
    let mut i: usize = 0;
    let np = if input_side {
        g.inputs.len()
    } else {
        g.outputs.len()
    };
    while i < np
        invariant
            pipes@.len() == g.connections@.len(),
            pp == pipe_views(pipes@),
            pseq == (if input_side { g.inputs@ } else { g.outputs@ }),
            np == pseq.len(),
            i <= np,
            env_views(env@) =~= entries_for(
                *g,
                pp,
                ports_of(pseq.take(i as int), id as int),
                input_side,
            ),
        decreases np - i,
    {
        let ghost s0 = pseq.take(i as int);
        let ghost s1 = pseq.take(i as int + 1);
        proof {
            assert(s1.drop_last() =~= s0);
            assert(s1.last() == pseq[i as int]);
        }
        let owner = if input_side {
            g.inputs[i].node
        } else {
            g.outputs[i].node
        };
        if owner == id {
            let mut varname = if input_side {
                String::from_str("IN_")
            } else {
                String::from_str("OUT_")
            };
            if input_side {
                varname.append(g.inputs[i].name.as_str());
            } else {
                varname.append(g.outputs[i].name.as_str());
            }
            let value = port_value(g, pipes, i, input_side);
            env.push((varname, value));
            proof {
                assert(ports_of(s1, id as int) == ports_of(s0, id as int).push(i as int));
                assert(entries_for(*g, pp, ports_of(s1, id as int), input_side) =~= entries_for(
                    *g,
                    pp,
                    ports_of(s0, id as int),
                    input_side,
                ).push(port_entry(*g, pp, i as int, input_side)));
                assert(env_views(env@) =~= entries_for(
                    *g,
                    pp,
                    ports_of(s1, id as int),
                    input_side,
                ));
            }
        } else {
            proof {
                assert(ports_of(s1, id as int) == ports_of(s0, id as int));
            }
        }
        i = i + 1;
    }
    proof {
        assert(pseq.take(np as int) =~= pseq);
    }
    env
}

/// The whole environment presented to one node's script: one variable
/// per declared port, inputs first, `IN_`/`OUT_` prefixes, values the
/// comma-joined pipe paths of the port's edges.
pub fn build_env(g: &Graph, pipes: &Vec<Pipe>, id: usize) -> (env: Vec<(String, String)>)
    requires
        pipes@.len() == g.connections@.len(),
    ensures
        env_views(env@) == env_entries(*g, pipe_views(pipes@), id as int),
{
    let mut env = side_entries(g, pipes, id, true);
    let mut outs = side_entries(g, pipes, id, false);
    let ghost a = env@;
    let ghost b = outs@;
    env.append(&mut outs);
    proof {
        assert(env_views(a + b) =~= env_views(a) + env_views(b));
    }
    env
}

/// Fan-out: two distinct edges leaving one output port are served by
/// two distinct pipes, and both pipes are listed on that port, so one
/// write to each pipe travels independently down each edge.
pub proof fn lemma_fan_out_independent_pipes(g: Graph, k1: int, k2: int)
    requires
        0 <= k1 < g.connections@.len(),
        0 <= k2 < g.connections@.len(),
        k1 != k2,
        g.connections@[k1].output == g.connections@[k2].output,
    ensures
        pipe_of_edge(g, k1) != pipe_of_edge(g, k2),
        edges_on(g.connections@, g.connections@[k1].output as int, false).contains(k1),
        edges_on(g.connections@, g.connections@[k1].output as int, false).contains(k2),
{
    let port = g.connections@[k1].output as int;
    lemma_edges_on_contains(g.connections@, port, false, k1);
    lemma_edges_on_contains(g.connections@, port, false, k2);
}

/// Fan-in: when exactly the two distinct edges `k1` and `k2` feed one
/// input port, the port is served by two distinct pipes and the
/// consuming script sees both pipe paths, comma-separated, in edge
/// order; the engine never merges the two streams into one.
pub proof fn lemma_fan_in_lists_both_pipes(
    g: Graph,
    pipe_paths: Seq<Seq<char>>,
    port: int,
    k1: int,
    k2: int,
)
    requires
        0 <= k1 < g.connections@.len(),
        0 <= k2 < g.connections@.len(),
        k1 != k2,
        edges_on(g.connections@, port, true) == seq![k1, k2],
    ensures
        pipe_of_edge(g, k1) != pipe_of_edge(g, k2),
        port_env_value(g.connections@, pipe_paths, port, true) == pipe_paths[k1] + ","@
            + pipe_paths[k2],
{
    let m = port_pipe_paths(g.connections@, pipe_paths, port, true);
    assert(m =~= seq![pipe_paths[k1], pipe_paths[k2]]);
    assert(m.drop_last() =~= seq![pipe_paths[k1]]);
    assert(join_commas(m.drop_last()) == pipe_paths[k1]);
    assert(join_commas(m) == pipe_paths[k1] + ","@ + pipe_paths[k2]);
}

/// A single edge resolves to a single shared pipe: when edge `k` is the
/// only edge on its two endpoint ports, the producer's `OUT_` variable
/// and the consumer's `IN_` variable both hold exactly the path of pipe
/// `k`, so the bytes the producer writes there are the bytes the
/// consumer reads.
pub proof fn lemma_single_edge_shares_one_pipe(g: Graph, pipe_paths: Seq<Seq<char>>, k: int)
    requires
        0 <= k < g.connections@.len(),
        edges_on(g.connections@, g.connections@[k].input as int, true) == seq![k],
        edges_on(g.connections@, g.connections@[k].output as int, false) == seq![k],
    ensures
        port_env_value(g.connections@, pipe_paths, g.connections@[k].input as int, true)
            == pipe_paths[k],
        port_env_value(g.connections@, pipe_paths, g.connections@[k].output as int, false)
            == pipe_paths[k],
{
    let mi = port_pipe_paths(g.connections@, pipe_paths, g.connections@[k].input as int, true);
    assert(mi =~= seq![pipe_paths[k]]);
    let mo = port_pipe_paths(g.connections@, pipe_paths, g.connections@[k].output as int, false);
    assert(mo =~= seq![pipe_paths[k]]);
}

/// The identifier of the run resource serving edge `k`: the run's
/// resources list its scripts first, one per node, then its pipes, one
/// per edge.
pub open spec fn pipe_of_edge(g: Graph, k: int) -> int {
    g.nodes@.len() + k
}

} // verus!
