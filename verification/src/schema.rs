//! The schema definition parser: line-oriented text with `N::`, `V::` and
//! `E::` blocks, each carrying `name: type` property lines, parsed
//! permissively into a structured document.

use vstd::prelude::*;
use vstd::string::StringExecFns;
use vstd::slice::slice_subrange;
use crate::smap::{assoc_insert, StrMap};
use crate::text::{
    chars_of, find_char, find_char_slice, slice_eq_str, slice_starts_with, split_sub,
    split_sub_slice, starts_with, string_of, strip_end_reps, strip_end_reps_slice, trim_slice,
    trim_spec, views_of,
};

verus! {

broadcast use vstd::string::group_string_axioms, vstd::std_specs::vec::group_vec_axioms;

/// A malformed top-level declaration: a block dispatched to a parser whose
/// prefix it does not carry.
#[derive(Debug, Clone, PartialEq, Eq)]
pub enum SchemaGrammarError {
    InvalidNode,
    InvalidEdge,
    InvalidVector,
}

/// The model of a node declaration.
pub struct NodeModel {
    pub name: Seq<char>,
    pub node_type: Seq<char>,
    pub properties: Seq<(Seq<char>, Seq<char>)>,
}

/// The model of an edge declaration.
pub struct EdgeModel {
    pub name: Seq<char>,
    pub from_node: Seq<char>,
    pub to_node: Seq<char>,
    pub properties: Seq<(Seq<char>, Seq<char>)>,
}

/// The model of a vector declaration.
pub struct VectorModel {
    pub name: Seq<char>,
    pub vector_type: Seq<char>,
    pub properties: Seq<(Seq<char>, Seq<char>)>,
}

/// The model of a parsed schema document.
pub struct SchemaModel {
    pub nodes: Seq<NodeModel>,
    pub edges: Seq<EdgeModel>,
    pub vectors: Seq<VectorModel>,
}

/// A node type declaration: a name, its kind tag, and its properties.
#[derive(Debug, Clone)]
pub struct NodeType {
    pub name: String,
    pub node_type: String,
    pub properties: StrMap,
}

impl View for NodeType {
    type V = NodeModel;

    open spec fn view(&self) -> NodeModel {
        NodeModel { name: self.name@, node_type: self.node_type@, properties: self.properties@ }
    }
}

/// An edge type declaration: a name, its endpoints by node-type name, and
/// its properties.
#[derive(Debug, Clone)]
pub struct EdgeType {
    pub name: String,
    pub from_node: String,
    pub to_node: String,
    pub properties: StrMap,
}

impl View for EdgeType {
    type V = EdgeModel;

    open spec fn view(&self) -> EdgeModel {
        EdgeModel {
            name: self.name@,
            from_node: self.from_node@,
            to_node: self.to_node@,
            properties: self.properties@,
        }
    }
}

/// A vector type declaration.
#[derive(Debug, Clone)]
pub struct VectorType {
    pub name: String,
    pub vector_type: String,
    pub properties: StrMap,
}

impl View for VectorType {
    type V = VectorModel;

    open spec fn view(&self) -> VectorModel {
        VectorModel {
            name: self.name@,
            vector_type: self.vector_type@,
            properties: self.properties@,
        }
    }
}

/// A parsed schema document: nodes, edges and vectors, in declaration order.
#[derive(Debug)]
pub struct SchemaInfo {
    pub nodes: Vec<NodeType>,
    pub edges: Vec<EdgeType>,
    pub vectors: Vec<VectorType>,
}

impl View for SchemaInfo {
    type V = SchemaModel;

    open spec fn view(&self) -> SchemaModel {
        SchemaModel {
            nodes: Seq::new(self.nodes@.len(), |i: int| self.nodes@[i]@),
            edges: Seq::new(self.edges@.len(), |i: int| self.edges@[i]@),
            vectors: Seq::new(self.vectors@.len(), |i: int| self.vectors@[i]@),
        }
    }
}

/// The views of a sequence of strings.
pub open spec fn strs_model(q: Seq<String>) -> Seq<Seq<char>> {
    Seq::new(q.len(), |i: int| q[i]@)
}

/// A line without its trailing carriage return.
pub open spec fn strip_cr(l: Seq<char>) -> Seq<char> {
    if l.len() > 0 && l.last() == '\r' {
        l.drop_last()
    } else {
        l
    }
}

/// The lines of a text, as std's `str::lines` yields them: split at each
/// newline, trailing carriage returns removed, no final empty line.
pub open spec fn lines_spec(s: Seq<char>) -> Seq<Seq<char>> {
    if s.len() == 0 {
        Seq::empty()
    } else {
        let parts = split_sub(s, seq!['\n']);
        let kept = if parts.last().len() == 0 {
            parts.drop_last()
        } else {
            parts
        };
        kept.map_values(|l: Seq<char>| strip_cr(l))
    }
}

/// Split a text into its lines.
pub fn lines_of(content: &str) -> (r: Vec<String>)
    ensures
        strs_model(r@) == lines_spec(content@),
{
    let v = chars_of(content);
    let mut r: Vec<String> = Vec::new();
    if v.len() == 0 {
        proof {
            assert(strs_model(r@) =~= lines_spec(content@));
        }
        return r;
    }
    let sep: Vec<char> = vec!['\n'];
    let mut parts = split_sub_slice(v.as_slice(), sep.as_slice());
    let ghost pm = split_sub(content@, seq!['\n']);
    proof {
        assert(sep@ =~= seq!['\n']);
        assert(views_of(parts@) == pm);
        assert(pm.len() > 0);
    }
    let plen = parts.len();
    let keep = if parts[plen - 1].len() == 0 {
        plen - 1
    } else {
        plen
    };
    let ghost kept = if pm.last().len() == 0 {
        pm.drop_last()
    } else {
        pm
    };
    let mut i: usize = 0;
    while i < keep
        invariant
            i <= keep <= parts@.len(),
            views_of(parts@) == pm,
            keep == kept.len(),
            kept == (if pm.last().len() == 0 {
                pm.drop_last()
            } else {
                pm
            }),
            pm.len() == parts@.len(),
            forall|j: int| 0 <= j < keep ==> #[trigger] kept[j] == pm[j],
            r@.len() == i,
            forall|j: int| 0 <= j < i ==> (#[trigger] r@[j])@ == strip_cr(kept[j]),
        decreases keep - i,
    {
        let piece = parts[i].as_slice();
        let n = piece.len();
        let line = if n > 0 && piece[n - 1] == '\r' {
            slice_subrange(piece, 0, n - 1)
        } else {
            piece
        };
        proof {
            assert(piece@ == pm[i as int]);
            assert(line@ =~= strip_cr(kept[i as int]));
        }
        r.push(string_of(line));
        i = i + 1;
    }
    proof {
        assert(strs_model(r@) =~= kept.map_values(|l: Seq<char>| strip_cr(l)));
        assert(strs_model(r@) =~= lines_spec(content@));
    }
    r
}

/// A property line: text before the first colon is the name, text after it
/// the type, both trimmed, a trailing comma removed first, and a bracketed
/// type `[T]` rewritten to the `Array<T>` text form.
pub open spec fn prop_line_spec(line: Seq<char>) -> Option<(Seq<char>, Seq<char>)> {
    let clean = strip_end_reps(trim_spec(line), seq![',']);
    match find_char(clean, ':') {
        None => None,
        Some(i) => {
            let name = trim_spec(clean.subrange(0, i));
            let ptype = trim_spec(clean.subrange(i + 1, clean.len() as int));
            let norm = if ptype.len() >= 2 && ptype[0] == '[' && ptype.last() == ']' {
                "Array<"@ + ptype.subrange(1, ptype.len() - 1) + seq!['>']
            } else {
                ptype
            };
            Some((name, norm))
        },
    }
}

/// Parse one property line.
pub fn parse_property_line(line: &str) -> (r: Option<(String, String)>)
    ensures
        match r {
            Some(p) => prop_line_spec(line@) == Some((p.0@, p.1@)),
            None => prop_line_spec(line@) is None,
        },
{
    let v = chars_of(line);
    parse_property_chars(v.as_slice())
}

/// Parse one property line given as characters.
pub fn parse_property_chars(v: &[char]) -> (r: Option<(String, String)>)
    ensures
        match r {
            Some(p) => prop_line_spec(v@) == Some((p.0@, p.1@)),
            None => prop_line_spec(v@) is None,
        },
{
    let trimmed = trim_slice(v);
    let comma: Vec<char> = vec![','];
    proof {
        assert(comma@ =~= seq![',']);
    }
    let clean = strip_end_reps_slice(trimmed, comma.as_slice());
    match find_char_slice(clean, ':') {
        None => None,
        Some(i) => {
            proof {
                crate::text::lemma_find_char_bounds(clean@, ':');
            }
            let cl = clean.len();
            let name = trim_slice(slice_subrange(clean, 0, i));
            let ptype = trim_slice(slice_subrange(clean, i + 1, cl));
            let tn = ptype.len();
            if tn >= 2 && ptype[0] == '[' && ptype[tn - 1] == ']' {
                let mut w: Vec<char> = Vec::new();
                crate::text::append_str(&mut w, "Array<");
                crate::text::append_chars(&mut w, slice_subrange(ptype, 1, tn - 1));
                w.push('>');
                proof {
                    assert(w@ =~= "Array<"@ + ptype@.subrange(1, ptype@.len() - 1) + seq!['>']);
                }
                Some((string_of(name), string_of(w.as_slice())))
            } else {
                Some((string_of(name), string_of(ptype)))
            }
        },
    }
}

/// The name in a block header: everything after the three-character prefix,
/// with trailing ` {` repetitions removed, trimmed.
pub open spec fn block_header_name(l: Seq<char>) -> Seq<char> {
    trim_spec(strip_end_reps(l.skip(3), " {"@))
}

/// A cursor walk over a node or vector block body: property lines accumulate
/// into `acc` until a bare `}` line or the end of input; blank and comment
/// lines are skipped, lines without a colon ignored.
pub open spec fn block_props_rec(
    lines: Seq<Seq<char>>,
    i: int,
    acc: Seq<(Seq<char>, Seq<char>)>,
) -> (Seq<(Seq<char>, Seq<char>)>, int)
    decreases lines.len() - i,
    when 0 <= i <= lines.len()
{
    if i >= lines.len() {
        (acc, i)
    } else {
        let l = trim_spec(lines[i]);
        if l == "}"@ {
            (acc, i + 1)
        } else if l.len() == 0 || starts_with(l, "//"@) {
            block_props_rec(lines, i + 1, acc)
        } else {
            match prop_line_spec(l) {
                Some(p) => block_props_rec(lines, i + 1, assoc_insert(acc, p)),
                None => block_props_rec(lines, i + 1, acc),
            }
        }
    }
}

pub proof fn lemma_block_props_bounds(
    lines: Seq<Seq<char>>,
    i: int,
    acc: Seq<(Seq<char>, Seq<char>)>,
)
    requires
        0 <= i <= lines.len(),
    ensures
        i <= block_props_rec(lines, i, acc).1 <= lines.len() + 1,
        i < lines.len() ==> block_props_rec(lines, i, acc).1 <= lines.len(),
    decreases lines.len() - i,
{
    if i < lines.len() {
        let l = trim_spec(lines[i]);
        if l == "}"@ {
        } else if l.len() == 0 || starts_with(l, "//"@) {
            lemma_block_props_bounds(lines, i + 1, acc);
        } else {
            match prop_line_spec(l) {
                Some(p) => lemma_block_props_bounds(lines, i + 1, assoc_insert(acc, p)),
                None => lemma_block_props_bounds(lines, i + 1, acc),
            }
        }
    }
}

/// A cursor walk over an edge block body: `From:` and `To:` lines set the
/// endpoints wherever they stand, `Properties: {` opens the property
/// sub-block, and the first bare `}` ends the walk.
pub open spec fn edge_body_rec(
    lines: Seq<Seq<char>>,
    i: int,
    from: Seq<char>,
    to: Seq<char>,
    props: Seq<(Seq<char>, Seq<char>)>,
    in_props: bool,
) -> (Seq<char>, Seq<char>, Seq<(Seq<char>, Seq<char>)>, int)
    decreases lines.len() - i,
    when 0 <= i <= lines.len()
{
    if i >= lines.len() {
        (from, to, props, i)
    } else {
        let l = trim_spec(lines[i]);
        if l == "}"@ {
            (from, to, props, i + 1)
        } else if l.len() == 0 || starts_with(l, "//"@) {
            edge_body_rec(lines, i + 1, from, to, props, in_props)
        } else if starts_with(l, "From:"@) {
            edge_body_rec(
                lines,
                i + 1,
                strip_end_reps(trim_spec(l.skip(5)), seq![',']),
                to,
                props,
                in_props,
            )
        } else if starts_with(l, "To:"@) {
            edge_body_rec(
                lines,
                i + 1,
                from,
                strip_end_reps(trim_spec(l.skip(3)), seq![',']),
                props,
                in_props,
            )
        } else if l == "Properties: {"@ {
            edge_body_rec(lines, i + 1, from, to, props, true)
        } else if in_props {
            match prop_line_spec(l) {
                Some(p) => edge_body_rec(lines, i + 1, from, to, assoc_insert(props, p), true),
                None => edge_body_rec(lines, i + 1, from, to, props, true),
            }
        } else {
            edge_body_rec(lines, i + 1, from, to, props, in_props)
        }
    }
}

pub proof fn lemma_edge_body_bounds(
    lines: Seq<Seq<char>>,
    i: int,
    from: Seq<char>,
    to: Seq<char>,
    props: Seq<(Seq<char>, Seq<char>)>,
    in_props: bool,
)
    requires
        0 <= i <= lines.len(),
    ensures
        i <= edge_body_rec(lines, i, from, to, props, in_props).3 <= lines.len() + 1,
        i < lines.len() ==> edge_body_rec(lines, i, from, to, props, in_props).3 <= lines.len(),
    decreases lines.len() - i,
{
    if i < lines.len() {
        let l = trim_spec(lines[i]);
        if l == "}"@ {
        } else if l.len() == 0 || starts_with(l, "//"@) {
            lemma_edge_body_bounds(lines, i + 1, from, to, props, in_props);
        } else if starts_with(l, "From:"@) {
            lemma_edge_body_bounds(
                lines,
                i + 1,
                strip_end_reps(trim_spec(l.skip(5)), seq![',']),
                to,
                props,
                in_props,
            );
        } else if starts_with(l, "To:"@) {
            lemma_edge_body_bounds(
                lines,
                i + 1,
                from,
                strip_end_reps(trim_spec(l.skip(3)), seq![',']),
                props,
                in_props,
            );
        } else if l == "Properties: {"@ {
            lemma_edge_body_bounds(lines, i + 1, from, to, props, true);
        } else if in_props {
            match prop_line_spec(l) {
                Some(p) => lemma_edge_body_bounds(
                    lines,
                    i + 1,
                    from,
                    to,
                    assoc_insert(props, p),
                    true,
                ),
                None => lemma_edge_body_bounds(lines, i + 1, from, to, props, true),
            }
        } else {
            lemma_edge_body_bounds(lines, i + 1, from, to, props, in_props);
        }
    }
}

/// The top-level walk: dispatch on each line's prefix, skipping blanks,
/// comments and unrecognized lines, collecting node, vector and edge blocks.
pub open spec fn schema_rec(
    lines: Seq<Seq<char>>,
    i: int,
    ns: Seq<NodeModel>,
    es: Seq<EdgeModel>,
    vs: Seq<VectorModel>,
) -> SchemaModel
    decreases lines.len() - i,
    when 0 <= i <= lines.len()
    via schema_rec_dec
{
    if i >= lines.len() {
        SchemaModel { nodes: ns, edges: es, vectors: vs }
    } else {
        let l = trim_spec(lines[i]);
        if l.len() == 0 || starts_with(l, "//"@) {
            schema_rec(lines, i + 1, ns, es, vs)
        } else if starts_with(l, "N::"@) {
            let (props, j) = block_props_rec(lines, i + 1, Seq::empty());
            schema_rec(
                lines,
                if j <= lines.len() {
                    j
                } else {
                    lines.len() as int
                },
                ns.push(
                    NodeModel {
                        name: block_header_name(l),
                        node_type: "N"@,
                        properties: props,
                    },
                ),
                es,
                vs,
            )
        } else if starts_with(l, "V::"@) {
            let (props, j) = block_props_rec(lines, i + 1, Seq::empty());
            schema_rec(
                lines,
                if j <= lines.len() {
                    j
                } else {
                    lines.len() as int
                },
                ns,
                es,
                vs.push(
                    VectorModel {
                        name: block_header_name(l),
                        vector_type: "V"@,
                        properties: props,
                    },
                ),
            )
        } else if starts_with(l, "E::"@) {
            let (f, t, props, j) = edge_body_rec(
                lines,
                i + 1,
                Seq::empty(),
                Seq::empty(),
                Seq::empty(),
                false,
            );
            schema_rec(
                lines,
                if j <= lines.len() {
                    j
                } else {
                    lines.len() as int
                },
                ns,
                es.push(
                    EdgeModel {
                        name: block_header_name(l),
                        from_node: f,
                        to_node: t,
                        properties: props,
                    },
                ),
                vs,
            )
        } else {
            schema_rec(lines, i + 1, ns, es, vs)
        }
    }
}

#[via_fn]
proof fn schema_rec_dec(
    lines: Seq<Seq<char>>,
    i: int,
    ns: Seq<NodeModel>,
    es: Seq<EdgeModel>,
    vs: Seq<VectorModel>,
) {
    if 0 <= i < lines.len() {
        lemma_block_props_bounds(lines, i + 1, Seq::empty());
        lemma_edge_body_bounds(lines, i + 1, Seq::empty(), Seq::empty(), Seq::empty(), false);
    }
}

/// The schema document a text parses to.
pub open spec fn schema_spec(s: Seq<char>) -> SchemaModel {
    schema_rec(lines_spec(s), 0, Seq::empty(), Seq::empty(), Seq::empty())
}

/// Walk a node or vector block body from `start`, collecting properties.
#[verifier::loop_isolation(false)]
fn parse_block_props(lines: &[String], start: usize) -> (r: (StrMap, usize))
    requires
        start <= lines@.len(),
    ensures
        ({
            let (props, j) = block_props_rec(strs_model(lines@), start as int, Seq::empty());
            r.0@ == props && r.1 == j
        }),
{
    let ghost lm = strs_model(lines@);
    let mut props = StrMap::new();
    let mut idx = start;
    let mut done = false;
    let n = lines.len();
    let cm = chars_of("//");
    while !done && idx < n
        invariant
            start <= idx <= n,
            cm@ == "//"@,
            !done ==> block_props_rec(lm, start as int, Seq::empty()) == block_props_rec(
                lm,
                idx as int,
                props@,
            ),
            done ==> block_props_rec(lm, start as int, Seq::empty()) == (props@, idx as int),
        decreases n - idx,
    {
        let lv = chars_of(lines[idx].as_str());
        let line = trim_slice(lv.as_slice());
        proof {
            assert(lm[idx as int] == lines@[idx as int]@);
        }
        if slice_eq_str(line, "}") {
            idx = idx + 1;
            done = true;
        } else if line.len() == 0 || slice_starts_with(line, cm.as_slice()) {
            idx = idx + 1;
        } else {
            match parse_property_chars(line) {
                Some(p) => {
                    props.insert(p.0, p.1);
                    idx = idx + 1;
                },
                None => {
                    idx = idx + 1;
                },
            }
        }
    }
    (props, idx)
}

/// The name of a block header line (already trimmed).
fn header_name(line: &[char]) -> (r: String)
    requires
        line@.len() >= 3,
    ensures
        r@ == block_header_name(line@),
{
    let after = slice_subrange(line, 3, line.len());
    let brace = chars_of(" {");
    proof {
        reveal_strlit(" {");
        assert(after@ =~= line@.skip(3));
        assert(brace@ == " {"@);
        assert(brace@.len() == 2);
    }
    let stripped = strip_end_reps_slice(after, brace.as_slice());
    string_of(trim_slice(stripped))
}

impl NodeType {
    /// Parse a node block headed at `*index`: its name and kind from the
    /// header, then property lines until a bare `}` or the end of input.
    /// A header without an `N::` or `V::` prefix is refused and leaves the
    /// cursor in place.
    pub fn parse_from_lines(lines: &[String], index: &mut usize) -> (r: Result<
        Option<NodeType>,
        SchemaGrammarError,
    >)
        requires
            *old(index) < lines@.len(),
        ensures
            ({
                let lm = strs_model(lines@);
                let l = trim_spec(lm[*old(index) as int]);
                if starts_with(l, "N::"@) || starts_with(l, "V::"@) {
                    let (props, j) = block_props_rec(lm, *old(index) + 1, Seq::empty());
                    &&& r matches Ok(Some(node)) && node@.name == block_header_name(l)
                        && node@.node_type == (if starts_with(l, "N::"@) {
                        "N"@
                    } else {
                        "V"@
                    }) && node@.properties == props
                    &&& *final(index) == j
                } else {
                    &&& r matches Err(e) && e == SchemaGrammarError::InvalidNode
                    &&& *final(index) == *old(index)
                }
            }),
    {
        let ghost lm = strs_model(lines@);
        let i0 = *index;
        let lv = chars_of(lines[i0].as_str());
        let line = trim_slice(lv.as_slice());
        proof {
            assert(lm[i0 as int] == lines@[i0 as int]@);
        }
        let np = chars_of("N::");
        let vp = chars_of("V::");
        proof {
            reveal_strlit("N::");
            reveal_strlit("V::");
            assert(np@ == "N::"@ && np@.len() == 3);
            assert(vp@ == "V::"@ && vp@.len() == 3);
        }
        let is_n = slice_starts_with(line, np.as_slice());
        let is_v = slice_starts_with(line, vp.as_slice());
        if !is_n && !is_v {
            return Err(SchemaGrammarError::InvalidNode);
        }
        let name = header_name(line);
        let kind = if is_n {
            String::from_str("N")
        } else {
            String::from_str("V")
        };
        let (props, j) = parse_block_props(lines, i0 + 1);
        *index = j;
        Ok(Some(NodeType { name, node_type: kind, properties: props }))
    }
}

impl VectorType {
    /// Parse a vector block headed at `*index`, tolerating a legacy `N::`
    /// prefix; the kind tag records which prefix was seen.
    pub fn parse_from_lines(lines: &[String], index: &mut usize) -> (r: Result<
        Option<VectorType>,
        SchemaGrammarError,
    >)
        requires
            *old(index) < lines@.len(),
        ensures
            ({
                let lm = strs_model(lines@);
                let l = trim_spec(lm[*old(index) as int]);
                if starts_with(l, "V::"@) || starts_with(l, "N::"@) {
                    let (props, j) = block_props_rec(lm, *old(index) + 1, Seq::empty());
                    &&& r matches Ok(Some(vt)) && vt@.name == block_header_name(l)
                        && vt@.vector_type == (if starts_with(l, "V::"@) {
                        "V"@
                    } else {
                        "N"@
                    }) && vt@.properties == props
                    &&& *final(index) == j
                } else {
                    &&& r matches Err(e) && e == SchemaGrammarError::InvalidVector
                    &&& *final(index) == *old(index)
                }
            }),
    {
        let ghost lm = strs_model(lines@);
        let i0 = *index;
        let lv = chars_of(lines[i0].as_str());
        let line = trim_slice(lv.as_slice());
        proof {
            assert(lm[i0 as int] == lines@[i0 as int]@);
        }
        let np = chars_of("N::");
        let vp = chars_of("V::");
        proof {
            reveal_strlit("N::");
            reveal_strlit("V::");
            assert(np@ == "N::"@ && np@.len() == 3);
            assert(vp@ == "V::"@ && vp@.len() == 3);
        }
        let is_v = slice_starts_with(line, vp.as_slice());
        let is_n = slice_starts_with(line, np.as_slice());
        if !is_v && !is_n {
            return Err(SchemaGrammarError::InvalidVector);
        }
        let name = header_name(line);
        let kind = if is_v {
            String::from_str("V")
        } else {
            String::from_str("N")
        };
        let (props, j) = parse_block_props(lines, i0 + 1);
        *index = j;
        Ok(Some(VectorType { name, vector_type: kind, properties: props }))
    }
}

impl EdgeType {
    /// Parse an edge block headed at `*index`: `From:` and `To:` lines set
    /// the endpoints, a `Properties: {` sub-block collects properties, and
    /// the first bare `}` ends the block. A header without the `E::` prefix
    /// is refused and leaves the cursor in place.
    #[verifier::loop_isolation(false)]
    pub fn parse_from_lines(lines: &[String], index: &mut usize) -> (r: Result<
        Option<EdgeType>,
        SchemaGrammarError,
    >)
        requires
            *old(index) < lines@.len(),
        ensures
            ({
                let lm = strs_model(lines@);
                let l = trim_spec(lm[*old(index) as int]);
                if starts_with(l, "E::"@) {
                    let (f, t, props, j) = edge_body_rec(
                        lm,
                        *old(index) + 1,
                        Seq::empty(),
                        Seq::empty(),
                        Seq::empty(),
                        false,
                    );
                    &&& r matches Ok(Some(edge)) && edge@.name == block_header_name(l)
                        && edge@.from_node == f && edge@.to_node == t && edge@.properties == props
                    &&& *final(index) == j
                } else {
                    &&& r matches Err(e) && e == SchemaGrammarError::InvalidEdge
                    &&& *final(index) == *old(index)
                }
            }),
    {
        let ghost lm = strs_model(lines@);
        let i0 = *index;
        let lv = chars_of(lines[i0].as_str());
        let line = trim_slice(lv.as_slice());
        proof {
            assert(lm[i0 as int] == lines@[i0 as int]@);
        }
        let ep = chars_of("E::");
        proof {
            reveal_strlit("E::");
            assert(ep@ == "E::"@ && ep@.len() == 3);
        }
        if !slice_starts_with(line, ep.as_slice()) {
            return Err(SchemaGrammarError::InvalidEdge);
        }
        let name = header_name(line);
        let mut from_node = String::new();
        let mut to_node = String::new();
        let mut props = StrMap::new();
        let mut in_props = false;
        let mut idx = i0 + 1;
        let mut done = false;
        let n = lines.len();
        let cm = chars_of("//");
        let fp = chars_of("From:");
        let tp = chars_of("To:");
        proof {
            reveal_strlit("From:");
            reveal_strlit("To:");
            assert(fp@.len() == 5 && tp@.len() == 3);
        }
        while !done && idx < n
            invariant
                i0 + 1 <= idx <= n,
                cm@ == "//"@,
                fp@ == "From:"@,
                tp@ == "To:"@,
                !done ==> edge_body_rec(lm, i0 + 1, Seq::empty(), Seq::empty(), Seq::empty(), false)
                    == edge_body_rec(lm, idx as int, from_node@, to_node@, props@, in_props),
                done ==> edge_body_rec(lm, i0 + 1, Seq::empty(), Seq::empty(), Seq::empty(), false)
                    == (from_node@, to_node@, props@, idx as int),
            decreases n - idx,
        {
            let lv2 = chars_of(lines[idx].as_str());
            let l2 = trim_slice(lv2.as_slice());
            proof {
                assert(lm[idx as int] == lines@[idx as int]@);
            }
            if slice_eq_str(l2, "}") {
                idx = idx + 1;
                done = true;
            } else if l2.len() == 0 || slice_starts_with(l2, cm.as_slice()) {
                idx = idx + 1;
            } else if slice_starts_with(l2, fp.as_slice()) {
                let rest = slice_subrange(l2, 5, l2.len());
                proof {
                    assert(rest@ =~= l2@.skip(5));
                }
                let comma: Vec<char> = vec![','];
                proof {
                    assert(comma@ =~= seq![',']);
                }
                from_node = string_of(strip_end_reps_slice(trim_slice(rest), comma.as_slice()));
                idx = idx + 1;
            } else if slice_starts_with(l2, tp.as_slice()) {
                let rest = slice_subrange(l2, 3, l2.len());
                proof {
                    assert(rest@ =~= l2@.skip(3));
                }
                let comma: Vec<char> = vec![','];
                proof {
                    assert(comma@ =~= seq![',']);
                }
                to_node = string_of(strip_end_reps_slice(trim_slice(rest), comma.as_slice()));
                idx = idx + 1;
            } else if slice_eq_str(l2, "Properties: {") {
                in_props = true;
                idx = idx + 1;
            } else if in_props {
                match parse_property_chars(l2) {
                    Some(p) => {
                        props.insert(p.0, p.1);
                        idx = idx + 1;
                    },
                    None => {
                        idx = idx + 1;
                    },
                }
            } else {
                idx = idx + 1;
            }
        }
        *index = idx;
        Ok(Some(EdgeType { name, from_node, to_node, properties: props }))
    }
}

impl SchemaInfo {
    /// An empty schema document.
    pub fn new() -> (r: SchemaInfo)
        ensures
            r@.nodes.len() == 0 && r@.edges.len() == 0 && r@.vectors.len() == 0,
    {
        SchemaInfo { nodes: Vec::new(), edges: Vec::new(), vectors: Vec::new() }
    }

    /// Parse a schema document from its text. Malformed pieces degrade to
    /// empty structures rather than failing: the only error the grammar
    /// walk could raise, a block without its dispatch prefix, cannot be
    /// reached from here.
    #[verifier::loop_isolation(false)]
    pub fn from_content(content: &str) -> (r: Result<SchemaInfo, SchemaGrammarError>)
        ensures
            r matches Ok(s) && s@ == schema_spec(content@),
    {
        let lines = lines_of(content);
        let ghost lm = strs_model(lines@);
        proof {
            assert(lm == lines_spec(content@));
        }
        let mut nodes: Vec<NodeType> = Vec::new();
        let mut edges: Vec<EdgeType> = Vec::new();
        let mut vectors: Vec<VectorType> = Vec::new();
        let mut i: usize = 0;
        let n = lines.len();
        let cm = chars_of("//");
        let np = chars_of("N::");
        let vp = chars_of("V::");
        let ep = chars_of("E::");
        proof {
            assert(Seq::new(nodes@.len(), |k: int| nodes@[k]@) =~= Seq::<NodeModel>::empty());
            assert(Seq::new(edges@.len(), |k: int| edges@[k]@) =~= Seq::<EdgeModel>::empty());
            assert(Seq::new(vectors@.len(), |k: int| vectors@[k]@) =~= Seq::<VectorModel>::empty());
        }
        while i < n
            invariant
                i <= n,
                cm@ == "//"@,
                np@ == "N::"@,
                vp@ == "V::"@,
                ep@ == "E::"@,
                schema_rec(lm, 0, Seq::empty(), Seq::empty(), Seq::empty()) == schema_rec(
                    lm,
                    i as int,
                    Seq::new(nodes@.len(), |k: int| nodes@[k]@),
                    Seq::new(edges@.len(), |k: int| edges@[k]@),
                    Seq::new(vectors@.len(), |k: int| vectors@[k]@),
                ),
            decreases n - i,
        {
            let ghost ns0 = Seq::new(nodes@.len(), |k: int| nodes@[k]@);
            let ghost es0 = Seq::new(edges@.len(), |k: int| edges@[k]@);
            let ghost vs0 = Seq::new(vectors@.len(), |k: int| vectors@[k]@);
            let lv = chars_of(lines[i].as_str());
            let line = trim_slice(lv.as_slice());
            proof {
                assert(lm[i as int] == lines@[i as int]@);
            }
            if line.len() == 0 || slice_starts_with(line, cm.as_slice()) {
                i = i + 1;
            } else if slice_starts_with(line, np.as_slice()) {
                let mut cursor = i;
                match NodeType::parse_from_lines(lines.as_slice(), &mut cursor) {
                    Ok(Some(node)) => {
                        nodes.push(node);
                        proof {
                            lemma_block_props_bounds(lm, i + 1, Seq::empty());
                            assert(Seq::new(nodes@.len(), |k: int| nodes@[k]@) =~= ns0.push(
                                nodes@[nodes@.len() - 1]@,
                            ));
                        }
                        i = cursor;
                    },
                    _ => {
                        proof {
                            assert(false);
                        }
                    },
                }
            } else if slice_starts_with(line, vp.as_slice()) {
                let mut cursor = i;
                match VectorType::parse_from_lines(lines.as_slice(), &mut cursor) {
                    Ok(Some(vt)) => {
                        vectors.push(vt);
                        proof {
                            lemma_block_props_bounds(lm, i + 1, Seq::empty());
                            assert(Seq::new(vectors@.len(), |k: int| vectors@[k]@) =~= vs0.push(
                                vectors@[vectors@.len() - 1]@,
                            ));
                        }
                        i = cursor;
                    },
                    _ => {
                        proof {
                            assert(false);
                        }
                    },
                }
            } else if slice_starts_with(line, ep.as_slice()) {
                let mut cursor = i;
                match EdgeType::parse_from_lines(lines.as_slice(), &mut cursor) {
                    Ok(Some(edge)) => {
                        edges.push(edge);
                        proof {
                            lemma_edge_body_bounds(
                                lm,
                                i + 1,
                                Seq::empty(),
                                Seq::empty(),
                                Seq::empty(),
                                false,
                            );
                            assert(Seq::new(edges@.len(), |k: int| edges@[k]@) =~= es0.push(
                                edges@[edges@.len() - 1]@,
                            ));
                        }
                        i = cursor;
                    },
                    _ => {
                        proof {
                            assert(false);
                        }
                    },
                }
            } else {
                i = i + 1;
            }
        }
        Ok(SchemaInfo { nodes, edges, vectors })
    }
}

impl Default for SchemaInfo {
    /// The default schema document is empty.
    fn default() -> (r: SchemaInfo)
        ensures
            r@.nodes.len() == 0 && r@.edges.len() == 0 && r@.vectors.len() == 0,
    {
        SchemaInfo::new()
    }
}

/// The kind tag a node declaration defaults to.
pub fn default_node_type() -> (r: String)
    ensures
        r@ == "N"@,
{
    String::from_str("N")
}

/// The kind tag a vector declaration defaults to.
pub fn default_vector_type() -> (r: String)
    ensures
        r@ == "V"@,
{
    String::from_str("V")
}

/// An empty schema document.
pub fn create_empty_schema() -> (r: SchemaInfo)
    ensures
        r@.nodes.len() == 0 && r@.edges.len() == 0 && r@.vectors.len() == 0,
{
    SchemaInfo { nodes: Vec::new(), edges: Vec::new(), vectors: Vec::new() }
}

} // verus!

// Re-opened for the optional cross-reference validation pass: edge
// endpoints name node or vector types by string, and nothing above checks
// that the names resolve.
verus! {

/// Whether some declared node or vector type carries the name.
pub open spec fn name_declared(m: SchemaModel, n: Seq<char>) -> bool {
    (exists|i: int| 0 <= i < m.nodes.len() && (#[trigger] m.nodes[i]).name == n) || (exists|i: int|
        0 <= i < m.vectors.len() && (#[trigger] m.vectors[i]).name == n)
}

/// The dangling endpoint references of a run of edges, in declaration
/// order: each edge's `from_node`, then its `to_node`, whenever the name
/// resolves to no declared node or vector type.
pub open spec fn dangling_of_edges(edges: Seq<EdgeModel>, m: SchemaModel) -> Seq<Seq<char>>
    decreases edges.len(),
{
    if edges.len() == 0 {
        Seq::empty()
    } else {
        dangling_of_edges(edges.drop_last(), m) + (if !name_declared(m, edges.last().from_node) {
            seq![edges.last().from_node]
        } else {
            Seq::<Seq<char>>::empty()
        }) + (if !name_declared(m, edges.last().to_node) {
            seq![edges.last().to_node]
        } else {
            Seq::<Seq<char>>::empty()
        })
    }
}

impl SchemaInfo {
    /// Whether a name is declared by some node or vector type.
    #[verifier::loop_isolation(false)]
    pub fn declares_name(&self, n: &str) -> (r: bool)
        ensures
            r == name_declared(self@, n@),
    {
        let mut i: usize = 0;
        let nn = self.nodes.len();
        while i < nn
            invariant
                i <= nn,
                forall|j: int| 0 <= j < i ==> (#[trigger] self@.nodes[j]).name != n@,
            decreases nn - i,
        {
            if crate::text::str_eq(self.nodes[i].name.as_str(), n) {
                proof {
                    assert(self@.nodes[i as int].name == n@);
                }
                return true;
            }
            i = i + 1;
        }
        let mut k: usize = 0;
        let nv = self.vectors.len();
        while k < nv
            invariant
                k <= nv,
                forall|j: int| 0 <= j < nn ==> (#[trigger] self@.nodes[j]).name != n@,
                forall|j: int| 0 <= j < k ==> (#[trigger] self@.vectors[j]).name != n@,
            decreases nv - k,
        {
            if crate::text::str_eq(self.vectors[k].name.as_str(), n) {
                proof {
                    assert(self@.vectors[k as int].name == n@);
                }
                return true;
            }
            k = k + 1;
        }
        false
    }

    /// The optional validation pass over edge endpoints: every `from_node`
    /// or `to_node` that names no declared node or vector type, in
    /// declaration order.
    #[verifier::loop_isolation(false)]
    pub fn dangling_edge_refs(&self) -> (r: Vec<String>)
        ensures
            strs_model(r@) == dangling_of_edges(self@.edges, self@),
    {
        let mut r: Vec<String> = Vec::new();
        let n = self.edges.len();
        let mut i: usize = 0;
        proof {
            assert(self@.edges.take(0) =~= Seq::<EdgeModel>::empty());
            assert(strs_model(r@) =~= dangling_of_edges(self@.edges.take(0), self@));
        }
        while i < n
            invariant
                i <= n,
                strs_model(r@) == dangling_of_edges(self@.edges.take(i as int), self@),
            decreases n - i,
        {
            let ghost old_r = r@;
            if !self.declares_name(self.edges[i].from_node.as_str()) {
                r.push(crate::json::clone_string(&self.edges[i].from_node));
            }
            let ghost mid_r = r@;
            if !self.declares_name(self.edges[i].to_node.as_str()) {
                r.push(crate::json::clone_string(&self.edges[i].to_node));
            }
            i = i + 1;
            proof {
                assert(self@.edges.take(i as int).drop_last() =~= self@.edges.take(i - 1));
                assert(self@.edges.take(i as int).last() == self@.edges[i - 1]);
                assert(strs_model(r@) =~= dangling_of_edges(self@.edges.take(i as int), self@));
            }
        }
        proof {
            assert(self@.edges.take(n as int) =~= self@.edges);
        }
        r
    }
}

} // verus!
