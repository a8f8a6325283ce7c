use vstd::prelude::*;
use crate::autograd::op_name;
use crate::autograd::vertex_ok;
use crate::autograd::Autograd;
use crate::autograd::Op;
use crate::autograd::Vertex;
use crate::kernel::Primitive;
use crate::matrix::Grid;
use crate::matrix::Matrix;
use crate::topo::topo_order;

verus! {

/// The character of a decimal digit.
pub open spec fn digit(d: nat) -> char {
    if d == 0 {
        '0'
    } else if d == 1 {
        '1'
    } else if d == 2 {
        '2'
    } else if d == 3 {
        '3'
    } else if d == 4 {
        '4'
    } else if d == 5 {
        '5'
    } else if d == 6 {
        '6'
    } else if d == 7 {
        '7'
    } else if d == 8 {
        '8'
    } else {
        '9'
    }
}

/// The decimal numeral of `n`, without leading zeros.
pub open spec fn decimal_text(n: nat) -> Seq<char>
    decreases n,
{
    if n < 10 {
        seq![digit(n)]
    } else {
        decimal_text(n / 10).push(digit(n % 10))
    }
}

/// The text of one decimal digit.
fn digit_str(d: usize) -> (r: &'static str)
    requires
        d < 10,
    ensures
        r@ == seq![digit(d as nat)],
{
    proof {
        reveal_strlit("0");
        reveal_strlit("1");
        reveal_strlit("2");
        reveal_strlit("3");
        reveal_strlit("4");
        reveal_strlit("5");
        reveal_strlit("6");
        reveal_strlit("7");
        reveal_strlit("8");
        reveal_strlit("9");
    }
    let r = if d == 0 {
        "0"
    } else if d == 1 {
        "1"
    } else if d == 2 {
        "2"
    } else if d == 3 {
        "3"
    } else if d == 4 {
        "4"
    } else if d == 5 {
        "5"
    } else if d == 6 {
        "6"
    } else if d == 7 {
        "7"
    } else if d == 8 {
        "8"
    } else {
        "9"
    };
    assert(r@ =~= seq![digit(d as nat)]);
    r
}

/// Writes `n` in decimal.
pub fn decimal(n: usize) -> (r: String)
    ensures
        r@ == decimal_text(n as nat),
    decreases n,
{
    if n < 10 {
        digit_str(n).to_owned()
    } else {
        let mut r = decimal(n / 10);
        r.append(digit_str(n % 10));
        assert(r@ =~= decimal_text(n as nat));
        r
    }
}

/// What is demanded of the writer of numbers: it accepts every word and every
/// precision, and it writes the same text each time.
pub open spec fn lawful_numeral<N: Fn(u64, usize) -> String>(numeral: N) -> bool {
    &&& forall|word: u64, precision: usize| #[trigger] call_requires(numeral, (word, precision))
    &&& forall|word: u64, precision: usize, s1: String, s2: String|
        #[trigger] call_ensures(numeral, (word, precision), s1) && #[trigger] call_ensures(
            numeral,
            (word, precision),
            s2,
        ) ==> s1@ == s2@
}

/// Whether the writer of numbers writes `text` for `word` at `precision`.
pub open spec fn writes<N: Fn(u64, usize) -> String>(
    numeral: N,
    word: u64,
    precision: usize,
    text: Seq<char>,
) -> bool {
    exists|s: String| s@ == text && #[trigger] call_ensures(numeral, (word, precision), s)
}

/// The text that the writer of numbers gives for `word` at `precision`.
pub open spec fn numeral_text<N: Fn(u64, usize) -> String>(
    numeral: N,
    word: u64,
    precision: usize,
) -> Seq<char> {
    choose|text: Seq<char>| writes(numeral, word, precision, text)
}

/// Asks the writer of numbers for the text of one word.
pub fn write_numeral<N: Fn(u64, usize) -> String>(numeral: &N, word: u64, precision: usize) -> (r:
    String)
    requires
        lawful_numeral(*numeral),
    ensures
        r@ == numeral_text(*numeral, word, precision),
{
    let r = numeral(word, precision);
    proof {
        assert(call_ensures(*numeral, (word, precision), r));
        assert(writes(*numeral, word, precision, r@));
        let chosen = numeral_text(*numeral, word, precision);
        assert(writes(*numeral, word, precision, chosen));
    }
    r
}

/// How a graph is drawn.
pub struct Visualizer {
    /// Top to bottom rather than left to right.
    pub vertical: bool,
    /// Whether a vertex shows its value and gradient, or its shapes.
    pub show_values: bool,
    /// The number of decimals of the numbers shown.
    pub precision: usize,
    /// Vertices to mark as outputs, each with the name of its mark.
    pub output_nodes: Vec<(usize, String)>,
}

/// The name shown for a vertex: that of its operation, or, for an input
/// vertex, its label, or `Value` where it has none.
pub open spec fn display_name(v: Vertex) -> Seq<char> {
    if v.op == Op::Leaf {
        if v.name.len() == 0 {
            "Value"@
        } else {
            v.name
        }
    } else {
        op_name(v.op)
    }
}

/// The text of a shape: `[rows, cols]`.
pub open spec fn shape_text(g: Grid) -> Seq<char> {
    "["@ + decimal_text(g.rows) + ", "@ + decimal_text(g.cols) + "]"@
}

/// The label of a vertex: its name alone, or its name and, for a vertex that
/// holds a single number, its value and gradient, else its shapes.
pub open spec fn label_text<N: Fn(u64, usize) -> String>(
    numeral: N,
    show_values: bool,
    precision: usize,
    v: Vertex,
) -> Seq<char> {
    if !show_values {
        display_name(v)
    } else if v.value.cells.len() == 1 {
        display_name(v) + "\\ndata: "@ + numeral_text(numeral, v.value.cells[0], precision)
            + ", grad: "@ + numeral_text(numeral, v.grad.cells[0], precision)
    } else {
        display_name(v) + "\\nval shape: "@ + shape_text(v.value) + "\\ngrad shape: "@
            + shape_text(v.grad)
    }
}

/// The fill of a vertex: green for an input vertex, yellow for an operation.
pub open spec fn fill_text(v: Vertex) -> Seq<char> {
    if v.op == Op::Leaf {
        "style=filled fillcolor=\"#7fff7f\""@
    } else {
        "style=filled fillcolor=\"#ffff7f\""@
    }
}

/// The line that declares the vertex drawn as number `id`.
pub open spec fn vertex_line<N: Fn(u64, usize) -> String>(
    numeral: N,
    show_values: bool,
    precision: usize,
    v: Vertex,
    id: nat,
) -> Seq<char> {
    "a"@ + decimal_text(id) + " [label=\""@ + label_text(numeral, show_values, precision, v)
        + "\" shape=rect "@ + fill_text(v) + "];\n"@
}

/// The line of the edge from the vertex drawn as `from` to the one drawn as `to`.
pub open spec fn edge_line(from: nat, to: nat) -> Seq<char> {
    "a"@ + decimal_text(from) + " -> a"@ + decimal_text(to) + ";\n"@
}

/// The position of vertex `w` in `order`, if it is listed there.
pub open spec fn position(order: Seq<usize>, w: usize) -> Option<nat> {
    if order.contains(w) {
        Some(order.index_of(w) as nat)
    } else {
        None
    }
}

/// The lines of the edges into the vertex drawn as `id` from the first `k` of
/// its children, in operand order. A vertex is drawn under its position in `order`.
pub open spec fn edge_lines(order: Seq<usize>, children: Seq<usize>, id: nat, k: nat) -> Seq<char>
    decreases k,
{
    if k == 0 {
        Seq::empty()
    } else {
        let before = edge_lines(order, children, id, (k - 1) as nat);
        match position(order, children[k - 1]) {
            Some(from) => before + edge_line(from, id),
            None => before,
        }
    }
}

/// The lines of the vertex at position `at` of `order`: its declaration, then
/// the edges from its children.
pub open spec fn vertex_block<N: Fn(u64, usize) -> String>(
    numeral: N,
    show_values: bool,
    precision: usize,
    nodes: Seq<Vertex>,
    order: Seq<usize>,
    at: nat,
) -> Seq<char> {
    let v = nodes[order[at as int] as int];
    vertex_line(numeral, show_values, precision, v, at) + edge_lines(
        order,
        v.children,
        at,
        v.children.len(),
    )
}

/// The lines of the first `k` vertices of `order`.
pub open spec fn vertex_lines<N: Fn(u64, usize) -> String>(
    numeral: N,
    show_values: bool,
    precision: usize,
    nodes: Seq<Vertex>,
    order: Seq<usize>,
    k: nat,
) -> Seq<char>
    decreases k,
{
    if k == 0 {
        Seq::empty()
    } else {
        vertex_lines(numeral, show_values, precision, nodes, order, (k - 1) as nat) + vertex_block(
            numeral,
            show_values,
            precision,
            nodes,
            order,
            (k - 1) as nat,
        )
    }
}

/// The lines of output mark number `i`: its declaration and the bold edge
/// from the vertex drawn as `from`.
pub open spec fn output_mark(i: nat, name: Seq<char>, from: nat) -> Seq<char> {
    "output"@ + decimal_text(i) + " [label=\""@ + name + "\" shape=oval];\n"@ + "a"@
        + decimal_text(from) + " -> output"@ + decimal_text(i) + " [ style=\"bold\" ];\n"@
}

/// The lines of the first `k` output marks. A mark on a vertex that is not
/// drawn is left out, and its number with it.
pub open spec fn output_lines(order: Seq<usize>, outputs: Seq<(usize, String)>, k: nat) -> Seq<char>
    decreases k,
{
    if k == 0 {
        Seq::empty()
    } else {
        let before = output_lines(order, outputs, (k - 1) as nat);
        match position(order, outputs[k - 1].0) {
            Some(from) => before + output_mark((k - 1) as nat, outputs[k - 1].1@, from),
            None => before,
        }
    }
}

/// The first lines of a drawing.
pub open spec fn header_text(vertical: bool) -> Seq<char> {
    "digraph G {\nrankdir=\""@ + (if vertical {
        "TB"@
    } else {
        "LR"@
    }) + "\";\nnewrank=true;\n"@
}

/// The drawing of what `root` reaches, in the DOT language: the header, the
/// vertices in the order of the linearization with the edges from their
/// children, the output marks, and the closing brace.
pub open spec fn drawing<N: Fn(u64, usize) -> String>(
    numeral: N,
    vertical: bool,
    show_values: bool,
    precision: usize,
    outputs: Seq<(usize, String)>,
    nodes: Seq<Vertex>,
    root: usize,
) -> Seq<char> {
    let order = topo_order(nodes, root);
    header_text(vertical) + vertex_lines(
        numeral,
        show_values,
        precision,
        nodes,
        order,
        order.len(),
    ) + output_lines(order, outputs, outputs.len()) + "}\n"@
}

/// In a sequence without repeats, an entry is found where it stands.
pub proof fn lemma_position_unique(order: Seq<usize>, i: int)
    requires
        order.no_duplicates(),
        0 <= i < order.len(),
    ensures
        position(order, order[i]) == Some(i as nat),
{
    assert(order.contains(order[i]));
    let found = order.index_of(order[i]);
    assert(0 <= found < order.len() && order[found] == order[i]);
}

/// `slots[w]` is the position of vertex `w` among the first `k` entries of `order`.
pub open spec fn slots_agree(slots: Seq<Option<usize>>, order: Seq<usize>, k: int) -> bool {
    forall|w: usize|
        w < slots.len() ==> match #[trigger] slots[w as int] {
            Some(at) => at < k && order[at as int] == w,
            None => forall|j: int| 0 <= j < k ==> order[j] != w,
        }
}

impl Default for Visualizer {
    fn default() -> (r: Self)
        ensures
            !r.vertical,
            r.show_values,
            r.precision == 4,
            r.output_nodes@.len() == 0,
    {
        Self { vertical: false, show_values: true, precision: 4, output_nodes: Vec::new() }
    }
}

impl Visualizer {
    /// A drawing from left to right that shows values with four decimals and
    /// marks no output.
    pub fn new() -> (r: Self)
        ensures
            !r.vertical,
            r.show_values,
            r.precision == 4,
            r.output_nodes@.len() == 0,
    {
        Self { vertical: false, show_values: true, precision: 4, output_nodes: Vec::new() }
    }

    /// Sets the direction.
    pub fn vertical(self, vertical: bool) -> (r: Self)
        ensures
            r.vertical == vertical,
            r.show_values == self.show_values,
            r.precision == self.precision,
            r.output_nodes == self.output_nodes,
    {
        let mut r = self;
        r.vertical = vertical;
        r
    }

    /// Sets whether vertices show their numbers.
    pub fn show_values(self, show_values: bool) -> (r: Self)
        ensures
            r.vertical == self.vertical,
            r.show_values == show_values,
            r.precision == self.precision,
            r.output_nodes == self.output_nodes,
    {
        let mut r = self;
        r.show_values = show_values;
        r
    }

    /// Sets the number of decimals.
    pub fn precision(self, precision: usize) -> (r: Self)
        ensures
            r.vertical == self.vertical,
            r.show_values == self.show_values,
            r.precision == precision,
            r.output_nodes == self.output_nodes,
    {
        let mut r = self;
        r.precision = precision;
        r
    }

    /// Marks vertex `node` as an output named `name`.
    pub fn add_output(self, node: usize, name: String) -> (r: Self)
        ensures
            r.vertical == self.vertical,
            r.show_values == self.show_values,
            r.precision == self.precision,
            r.output_nodes@ == self.output_nodes@.push((node, name)),
    {
        let mut r = self;
        r.output_nodes.push((node, name));
        r
    }

    /// Draws what `root` reaches, in the DOT language. Vertices are numbered
    /// by their position in the linearization; numbers are written by `numeral`.
    pub fn draw<K: Fn(Primitive, &Matrix, &Matrix) -> Matrix, N: Fn(u64, usize) -> String>(
        &self,
        g: &Autograd<K>,
        root: usize,
        numeral: &N,
    ) -> (r: String)
        requires
            g.wf(),
            root < g@.len(),
            lawful_numeral(*numeral),
        ensures
            r@ == drawing(
                *numeral,
                self.vertical,
                self.show_values,
                self.precision,
                self.output_nodes@,
                g@,
                root,
            ),
    {
        let order = g.get_topo(root);
        let slots = positions(g.len(), &order);
        let mut out = "digraph G {\nrankdir=\"".to_owned();
        out.append(
            if self.vertical {
                "TB"
            } else {
                "LR"
            },
        );
        out.append("\";\nnewrank=true;\n");

        let mut body = String::new();
        let mut i: usize = 0;
        while i < order.len()
            invariant
                g.wf(),
                lawful_numeral(*numeral),
                i <= order@.len(),
                order@.no_duplicates(),
                forall|t: int| 0 <= t < order@.len() ==> (#[trigger] order@[t]) < g@.len(),
                slots@.len() == g@.len(),
                slots_agree(slots@, order@, order@.len() as int),
                body@ == vertex_lines(
                    *numeral,
                    self.show_values,
                    self.precision,
                    g@,
                    order@,
                    i as nat,
                ),
            decreases order@.len() - i,
        {
            let v = order[i];
            let mut block = vertex_string(g, v, i, self.show_values, self.precision, numeral);
            let edges = edge_strings(g, v, i, &order, &slots);
            block.append(edges.as_str());
            body.append(block.as_str());
            i += 1;
        }
        out.append(body.as_str());

        let mut marks = String::new();
        let mut k: usize = 0;
        while k < self.output_nodes.len()
            invariant
                k <= self.output_nodes@.len(),
                order@.no_duplicates(),
                forall|t: int| 0 <= t < order@.len() ==> (#[trigger] order@[t]) < g@.len(),
                slots@.len() == g@.len(),
                slots_agree(slots@, order@, order@.len() as int),
                marks@ == output_lines(order@, self.output_nodes@, k as nat),
            decreases self.output_nodes@.len() - k,
        {
            let node = self.output_nodes[k].0;
            match lookup(&slots, &order, node) {
                Some(from) => {
                    let mark = output_string(k, self.output_nodes[k].1.as_str(), from);
                    marks.append(mark.as_str());
                },
                None => {},
            }
            k += 1;
        }
        out.append(marks.as_str());
        out.append("}\n");
        out
    }
}

/// The position in `order` of each of `count` vertices, where it has one.
fn positions(count: usize, order: &Vec<usize>) -> (slots: Vec<Option<usize>>)
    requires
        order@.no_duplicates(),
        forall|t: int| 0 <= t < order@.len() ==> (#[trigger] order@[t]) < count,
    ensures
        slots@.len() == count,
        slots_agree(slots@, order@, order@.len() as int),
{
    let mut slots: Vec<Option<usize>> = Vec::new();
    let mut w: usize = 0;
    while w < count
        invariant
            w <= count,
            slots@.len() == w,
            forall|t: int| 0 <= t < w ==> slots@[t].is_none(),
        decreases count - w,
    {
        slots.push(None);
        w += 1;
    }
    let mut i: usize = 0;
    while i < order.len()
        invariant
            i <= order@.len(),
            order@.no_duplicates(),
            forall|t: int| 0 <= t < order@.len() ==> (#[trigger] order@[t]) < count,
            slots@.len() == count,
            slots_agree(slots@, order@, i as int),
        decreases order@.len() - i,
    {
        let ghost before = slots@;
        slots[order[i]] = Some(i);
        proof {
            assert forall|w: usize| w < slots@.len() implies match #[trigger] slots@[w as int] {
                Some(at) => at < i + 1 && order@[at as int] == w,
                None => forall|j: int| 0 <= j < i + 1 ==> order@[j] != w,
            } by {
                if w != order@[i as int] {
                    assert(slots@[w as int] == before[w as int]);
                }
            }
        }
        i += 1;
    }
    slots
}

/// The position of vertex `w` in `order`, read from the table of positions.
fn lookup(slots: &Vec<Option<usize>>, order: &Vec<usize>, w: usize) -> (r: Option<usize>)
    requires
        order@.no_duplicates(),
        slots_agree(slots@, order@, order@.len() as int),
        forall|t: int| 0 <= t < order@.len() ==> (#[trigger] order@[t]) < slots@.len(),
    ensures
        match r {
            Some(at) => position(order@, w) == Some(at as nat),
            None => position(order@, w).is_none(),
        },
{
    if w < slots.len() {
        let r = slots[w];
        proof {
            match r {
                Some(at) => {
                    lemma_position_unique(order@, at as int);
                },
                None => {
                    if order@.contains(w) {
                        let j = choose|j: int| 0 <= j < order@.len() && order@[j] == w;
                        assert(order@[j] != w);
                    }
                },
            }
        }
        r
    } else {
        proof {
            if order@.contains(w) {
                let j = choose|j: int| 0 <= j < order@.len() && order@[j] == w;
                assert(order@[j] < slots@.len());
            }
        }
        None
    }
}

/// Writes the shape of a matrix.
fn shape_string(m: &Matrix) -> (r: String)
    ensures
        r@ == shape_text(m@),
{
    let mut r = "[".to_owned();
    r.append(decimal(m.rows()).as_str());
    r.append(", ");
    r.append(decimal(m.cols()).as_str());
    r.append("]");
    r
}

/// Writes the name shown for vertex `id`.
fn name_string<K: Fn(Primitive, &Matrix, &Matrix) -> Matrix>(g: &Autograd<K>, id: usize) -> (r:
    String)
    requires
        id < g@.len(),
    ensures
        r@ == display_name(g@[id as int]),
{
    if g.kind(id) == Op::Leaf {
        let name = g.name(id);
        if name.as_str().unicode_len() == 0 {
            "Value".to_owned()
        } else {
            name
        }
    } else {
        g.op(id)
    }
}

/// Writes the label of vertex `id`.
fn label_string<K: Fn(Primitive, &Matrix, &Matrix) -> Matrix, N: Fn(u64, usize) -> String>(
    g: &Autograd<K>,
    id: usize,
    show_values: bool,
    precision: usize,
    numeral: &N,
) -> (r: String)
    requires
        g.wf(),
        id < g@.len(),
        lawful_numeral(*numeral),
    ensures
        r@ == label_text(*numeral, show_values, precision, g@[id as int]),
{
    let mut r = name_string(g, id);
    if show_values {
        let value = g.value_ref(id);
        let grad = g.grad_ref(id);
        proof {
            assert(vertex_ok(g@, id as int));
        }
        if value.rows() == 1 && value.cols() == 1 {
            proof {
                assert(value@.rows * value@.cols == 1) by (nonlinear_arith)
                    requires
                        value@.rows == 1,
                        value@.cols == 1,
                ;
                assert(value@.cells.len() == 1);
                assert(grad@.cells.len() == 1);
                assert(value@.at(0, 0) == value@.cells[0]);
                assert(grad@.at(0, 0) == grad@.cells[0]);
            }
            r.append("\\ndata: ");
            r.append(write_numeral(numeral, value.get(0, 0), precision).as_str());
            r.append(", grad: ");
            r.append(write_numeral(numeral, grad.get(0, 0), precision).as_str());
        } else {
            proof {
                let rows = value@.rows;
                let cols = value@.cols;
                assert(rows * cols != 1) by (nonlinear_arith)
                    requires
                        !(rows == 1 && cols == 1),
                        rows >= 0,
                        cols >= 0,
                ;
                assert(value@.cells.len() != 1);
            }
            r.append("\\nval shape: ");
            r.append(shape_string(value).as_str());
            r.append("\\ngrad shape: ");
            r.append(shape_string(grad).as_str());
        }
    }
    r
}

/// Writes the line that declares vertex `id`, drawn as number `at`.
fn vertex_string<K: Fn(Primitive, &Matrix, &Matrix) -> Matrix, N: Fn(u64, usize) -> String>(
    g: &Autograd<K>,
    id: usize,
    at: usize,
    show_values: bool,
    precision: usize,
    numeral: &N,
) -> (r: String)
    requires
        g.wf(),
        id < g@.len(),
        lawful_numeral(*numeral),
    ensures
        r@ == vertex_line(*numeral, show_values, precision, g@[id as int], at as nat),
{
    let mut r = "a".to_owned();
    r.append(decimal(at).as_str());
    r.append(" [label=\"");
    r.append(label_string(g, id, show_values, precision, numeral).as_str());
    r.append("\" shape=rect ");
    r.append(
        if g.kind(id) == Op::Leaf {
            "style=filled fillcolor=\"#7fff7f\""
        } else {
            "style=filled fillcolor=\"#ffff7f\""
        },
    );
    r.append("];\n");
    r
}

/// Writes the lines of the edges into vertex `id`, drawn as number `at`.
fn edge_strings<K: Fn(Primitive, &Matrix, &Matrix) -> Matrix>(
    g: &Autograd<K>,
    id: usize,
    at: usize,
    order: &Vec<usize>,
    slots: &Vec<Option<usize>>,
) -> (r: String)
    requires
        id < g@.len(),
        order@.no_duplicates(),
        slots_agree(slots@, order@, order@.len() as int),
        forall|t: int| 0 <= t < order@.len() ==> (#[trigger] order@[t]) < slots@.len(),
    ensures
        r@ == edge_lines(
            order@,
            g@[id as int].children,
            at as nat,
            g@[id as int].children.len(),
        ),
{
    let mut r = String::new();
    let n = g.child_count(id);
    let mut k: usize = 0;
    while k < n
        invariant
            id < g@.len(),
            n == g@[id as int].children.len(),
            k <= n,
            order@.no_duplicates(),
            slots_agree(slots@, order@, order@.len() as int),
            forall|t: int| 0 <= t < order@.len() ==> (#[trigger] order@[t]) < slots@.len(),
            r@ == edge_lines(order@, g@[id as int].children, at as nat, k as nat),
        decreases n - k,
    {
        match lookup(slots, order, g.child(id, k)) {
            Some(from) => {
                let mut line = "a".to_owned();
                line.append(decimal(from).as_str());
                line.append(" -> a");
                line.append(decimal(at).as_str());
                line.append(";\n");
                r.append(line.as_str());
            },
            None => {},
        }
        k += 1;
    }
    r
}

/// Writes the lines of output mark number `i`.
fn output_string(i: usize, name: &str, from: usize) -> (r: String)
    ensures
        r@ == output_mark(i as nat, name@, from as nat),
{
    let mut r = "output".to_owned();
    r.append(decimal(i).as_str());
    r.append(" [label=\"");
    r.append(name);
    r.append("\" shape=oval];\n");
    r.append("a");
    r.append(decimal(from).as_str());
    r.append(" -> output");
    r.append(decimal(i).as_str());
    r.append(" [ style=\"bold\" ];\n");
    r
}

} // verus!
