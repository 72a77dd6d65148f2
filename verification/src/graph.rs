//! The graph data model: nodes holding script text, named input and
//! output ports, and directed edges from output ports to input ports.

use vstd::prelude::*;

verus! {

/// The connection kind a port is tagged with. The tag is advisory
/// metadata: both kinds resolve to one FIFO per edge.
#[derive(Clone, Copy, PartialEq, Eq, Structural, Debug)]
pub enum PipeKind {
    Single,
    Many,
}

/// A node's own data: the source text of the script it runs. The first
/// line of the text selects the interpreter.
#[derive(Clone, Debug)]
pub struct Node {
    pub script: String,
}

/// A record of the graph: a node together with its editor-facing label.
#[derive(Clone, Debug)]
pub struct NodeRecord {
    pub label: String,
    pub node: Node,
}

/// A named port belonging to one node.
#[derive(Clone, Debug)]
pub struct PortParam {
    /// Identifier (index) of the node the port belongs to.
    pub node: usize,
    /// The port's name, as the node's script will see it in `IN_<name>`
    /// or `OUT_<name>`.
    pub name: String,
    pub kind: PipeKind,
}

/// A directed edge from one output port to one input port.
#[derive(Clone, Copy, PartialEq, Eq, Structural, Debug)]
pub struct Edge {
    /// Identifier (index) of the source output port.
    pub output: usize,
    /// Identifier (index) of the destination input port.
    pub input: usize,
}

/// The node/port/edge topology. Nodes, ports and edges are identified
/// by their index in the respective list.
pub struct Graph {
    pub nodes: Vec<NodeRecord>,
    pub inputs: Vec<PortParam>,
    pub outputs: Vec<PortParam>,
    pub connections: Vec<Edge>,
}

/// A marker for the single template of node the editor offers.
#[derive(Clone, Copy, Default, Debug)]
pub struct NodeTemplate;

/// The value type of ports: ports carry no inline value, only connections.
#[derive(Clone, Copy, Default, Debug)]
pub struct NoValues;

impl Graph {
    /// Every port belongs to a node of the graph and every edge joins an
    /// existing output port to an existing input port.
    pub open spec fn wf(self) -> bool {
        &&& forall|i: int|
            0 <= i < self.inputs@.len() ==> (#[trigger] self.inputs@[i]).node < self.nodes@.len()
        &&& forall|o: int|
            0 <= o < self.outputs@.len() ==> (#[trigger] self.outputs@[o]).node < self.nodes@.len()
        &&& forall|k: int|
            0 <= k < self.connections@.len() ==> {
                &&& (#[trigger] self.connections@[k]).input < self.inputs@.len()
                &&& self.connections@[k].output < self.outputs@.len()
            }
    }

    /// Adds a node and returns its identifier.
    pub fn add_node(&mut self, label: String, node: Node) -> (id: usize)
        ensures
            id == old(self).nodes@.len(),
            final(self).nodes@ == old(self).nodes@.push(NodeRecord { label: label, node: node }),
            final(self).inputs@ == old(self).inputs@,
            final(self).outputs@ == old(self).outputs@,
            final(self).connections@ == old(self).connections@,
            old(self).wf() ==> final(self).wf(),
    {
        let id = self.nodes.len();
        self.nodes.push(NodeRecord { label, node });
        id
    }

    /// Declares a named input port on a node and returns the port's
    /// identifier.
    pub fn add_input_param(&mut self, node: usize, name: String, kind: PipeKind) -> (id: usize)
        requires
            node < old(self).nodes@.len(),
        ensures
            id == old(self).inputs@.len(),
            final(self).inputs@ == old(self).inputs@.push(
                PortParam { node: node, name: name, kind: kind },
            ),
            final(self).nodes@ == old(self).nodes@,
            final(self).outputs@ == old(self).outputs@,
            final(self).connections@ == old(self).connections@,
            old(self).wf() ==> final(self).wf(),
    {
        let id = self.inputs.len();
        self.inputs.push(PortParam { node, name, kind });
        id
    }

    /// Declares a named output port on a node and returns the port's
    /// identifier.
    pub fn add_output_param(&mut self, node: usize, name: String, kind: PipeKind) -> (id: usize)
        requires
            node < old(self).nodes@.len(),
        ensures
            id == old(self).outputs@.len(),
            final(self).outputs@ == old(self).outputs@.push(
                PortParam { node: node, name: name, kind: kind },
            ),
            final(self).nodes@ == old(self).nodes@,
            final(self).inputs@ == old(self).inputs@,
            final(self).connections@ == old(self).connections@,
            old(self).wf() ==> final(self).wf(),
    {
        let id = self.outputs.len();
        self.outputs.push(PortParam { node, name, kind });
        id
    }

    /// Replaces a node's script text: the editor's live edit. A run
    /// already in flight is unaffected; the new text is read at the
    /// next run start.
    pub fn set_script(&mut self, node: usize, script: String)
        requires
            node < old(self).nodes@.len(),
        ensures
            final(self).nodes@.len() == old(self).nodes@.len(),
            final(self).nodes@[node as int].label == old(self).nodes@[node as int].label,
            final(self).nodes@[node as int].node.script == script,
            forall|i: int|
                0 <= i < old(self).nodes@.len() && i != node ==> #[trigger] final(self).nodes@[i]
                    == old(self).nodes@[i],
            final(self).inputs@ == old(self).inputs@,
            final(self).outputs@ == old(self).outputs@,
            final(self).connections@ == old(self).connections@,
            old(self).wf() ==> final(self).wf(),
    {
        let rec = &mut self.nodes[node];
        rec.node.script = script;
    }

    /// Connects an output port to an input port. Each edge added here is
    /// served by its own fresh pipe at every run start, so two edges
    /// sharing a port still stream independently.
    pub fn add_connection(&mut self, output: usize, input: usize)
        requires
            output < old(self).outputs@.len(),
            input < old(self).inputs@.len(),
        ensures
            final(self).connections@ == old(self).connections@.push(
                Edge { output: output, input: input },
            ),
            final(self).nodes@ == old(self).nodes@,
            final(self).inputs@ == old(self).inputs@,
            final(self).outputs@ == old(self).outputs@,
            old(self).wf() ==> final(self).wf(),
    {
        self.connections.push(Edge { output, input });
    }
}

impl Default for Graph {
    /// An empty graph.
    fn default() -> (g: Graph)
        ensures
            g.nodes@.len() == 0,
            g.inputs@.len() == 0,
            g.outputs@.len() == 0,
            g.connections@.len() == 0,
            g.wf(),
    {
        Graph { nodes: Vec::new(), inputs: Vec::new(), outputs: Vec::new(), connections: Vec::new() }
    }
}

/// The identifiers of the ports in `ports` that belong to node `node`,
/// in order of declaration.
pub open spec fn ports_of(ports: Seq<PortParam>, node: int) -> Seq<int>
    decreases ports.len(),
{
    if ports.len() == 0 {
        Seq::empty()
    } else {
        let prefix = ports_of(ports.drop_last(), node);
        if ports.last().node == node {
            prefix.push(ports.len() - 1)
        } else {
            prefix
        }
    }
}

/// The identifiers of the edges in `conns` that touch port `port`: its
/// consuming edges when `input_side` is true, its producing edges
/// otherwise, in order of declaration.
pub open spec fn edges_on(conns: Seq<Edge>, port: int, input_side: bool) -> Seq<int>
    decreases conns.len(),
{
    if conns.len() == 0 {
        Seq::empty()
    } else {
        let prefix = edges_on(conns.drop_last(), port, input_side);
        let touches = if input_side {
            conns.last().input == port
        } else {
            conns.last().output == port
        };
        if touches {
            prefix.push(conns.len() - 1)
        } else {
            prefix
        }
    }
}



} // verus!
