//! Summary text: the diagrams appended to it, their labels and lane keys.

use vstd::prelude::*;
use vstd::string::StringExecFns;
use crate::response::{get, get_exec, opt_str_of, Json};
use crate::text::{chars_of, find_seq, is_ws, lower_of, lowercase, slice_chars, string_of, trim, trim_chars};

verus! {

/// What a character of a diagram label becomes: dropped (backticks and
/// angle brackets), a space (line breaks and tabs), or the full-width form
/// of the delimiters the diagram syntax reserves.
pub open spec fn label_char(c: char) -> Seq<char> {
    if c == '`' || c == '<' || c == '>' {
        Seq::empty()
    } else if c == '\r' || c == '\n' || c == '\t' {
        seq![' ']
    } else if c == ':' {
        seq!['：']
    } else if c == ',' {
        seq!['，']
    } else if c == ';' {
        seq!['；']
    } else if c == '(' {
        seq!['（']
    } else if c == ')' {
        seq!['）']
    } else if c == '[' {
        seq!['【']
    } else if c == ']' {
        seq!['】']
    } else {
        seq![c]
    }
}

/// The first `n` characters of `s`, each as `label_char` makes it.
pub open spec fn label_chars(s: Seq<char>, n: int) -> Seq<char>
    decreases n,
{
    if n <= 0 {
        Seq::empty()
    } else {
        label_chars(s, n - 1) + label_char(s[n - 1])
    }
}

/// The first `n` characters of `s` with each run of whitespace made one
/// space; and whether the text so far ends in whitespace.
pub open spec fn collapsed(s: Seq<char>, n: int) -> (Seq<char>, bool)
    decreases n,
{
    if n <= 0 {
        (Seq::empty(), false)
    } else {
        let (t, last_space) = collapsed(s, n - 1);
        if is_ws(s[n - 1]) {
            if last_space {
                (t, true)
            } else {
                (t.push(' '), true)
            }
        } else {
            (t.push(s[n - 1]), false)
        }
    }
}

/// A diagram label made from free text.
pub open spec fn diagram_label(raw: Seq<char>) -> Seq<char> {
    let s = trim(raw);
    let m = label_chars(s, s.len() as int);
    trim(collapsed(m, m.len() as int).0)
}

fn label_char_exec(c: char, out: &mut Vec<char>)
    ensures
        final(out)@ == old(out)@ + label_char(c),
{
    let r: Option<char> = if c == '`' || c == '<' || c == '>' {
        None
    } else if c == '\r' || c == '\n' || c == '\t' {
        Some(' ')
    } else if c == ':' {
        Some('：')
    } else if c == ',' {
        Some('，')
    } else if c == ';' {
        Some('；')
    } else if c == '(' {
        Some('（')
    } else if c == ')' {
        Some('）')
    } else if c == '[' {
        Some('【')
    } else if c == ']' {
        Some('】')
    } else {
        Some(c)
    };
    match r {
        Some(x) => {
            out.push(x);
            assert(out@ =~= old(out)@ + label_char(c));
        },
        None => {
            assert(out@ =~= old(out)@ + label_char(c));
        },
    }
}

/// Makes free text safe as a diagram label: reserved delimiters become
/// their full-width forms, backticks and angle brackets go, whitespace runs
/// become single spaces, and the result is trimmed.
pub fn sanitize_mermaid_label(raw: &str) -> (r: String)
    ensures
        r@ == diagram_label(raw@),
{
    let v = chars_of(raw);
    let s = trim_chars(v.as_slice());
    let mut m: Vec<char> = Vec::new();
    let mut i: usize = 0;
    while i < s.len()
        invariant
            i <= s@.len(),
            m@ == label_chars(s@, i as int),
        decreases s@.len() - i,
    {
        label_char_exec(s[i], &mut m);
        i = i + 1;
    }
    let mut out: Vec<char> = Vec::new();
    let mut last_space = false;
    let mut k: usize = 0;
    while k < m.len()
        invariant
            k <= m@.len(),
            collapsed(m@, k as int) == (out@, last_space),
        decreases m@.len() - k,
    {
        let c = m[k];
        if crate::text::is_ws_char(c) {
            if !last_space {
                out.push(' ');
                last_space = true;
            }
        } else {
            out.push(c);
            last_space = false;
        }
        k = k + 1;
    }
    let t = trim_chars(out.as_slice());
    string_of(t.as_slice())
}

/// What `char::to_lowercase` makes of one character.
pub uninterp spec fn lower_char_of(c: char) -> Seq<char>;

/// Relies on `char::to_lowercase`: the characters depend on `c` alone.
#[verifier::external_body]
fn lower_char(c: char) -> (r: Vec<char>)
    ensures
        r@ == lower_char_of(c),
{
    c.to_lowercase().collect()
}

/// Characters that a lane key leaves out.
pub open spec fn key_skipped(c: char) -> bool {
    is_ws(c) || c == '-' || c == '_'
}

/// The lane key of the first `n` characters of `s`.
pub open spec fn lane_key_of(s: Seq<char>, n: int) -> Seq<char>
    decreases n,
{
    if n <= 0 {
        Seq::empty()
    } else if key_skipped(s[n - 1]) {
        lane_key_of(s, n - 1)
    } else {
        lane_key_of(s, n - 1) + lower_char_of(s[n - 1])
    }
}

/// A lane name as a key: without whitespace, `-` and `_`, each character
/// lower-cased.
pub fn normalize_lane_key(s: &str) -> (r: String)
    ensures
        r@ == lane_key_of(s@, s@.len() as int),
{
    let v = chars_of(s);
    let mut out: Vec<char> = Vec::new();
    let mut i: usize = 0;
    while i < v.len()
        invariant
            i <= v@.len(),
            v@ == s@,
            out@ == lane_key_of(v@, i as int),
        decreases v@.len() - i,
    {
        let c = v[i];
        if !(crate::text::is_ws_char(c) || c == '-' || c == '_') {
            let l = lower_char(c);
            let mut k: usize = 0;
            let ghost o = out@;
            while k < l.len()
                invariant
                    k <= l@.len(),
                    out@ == o + l@.subrange(0, k as int),
                decreases l@.len() - k,
            {
                out.push(l[k]);
                k = k + 1;
                assert(out@ =~= o + l@.subrange(0, k as int));
            }
            assert(l@.subrange(0, l@.len() as int) =~= l@);
        }
        i = i + 1;
    }
    string_of(out.as_slice())
}

/// The four lanes of a summary timeline, in Chinese or English.
pub open spec fn lane_names(prefer_zh: bool) -> Seq<Seq<char>> {
    if prefer_zh {
        seq!["概念定义"@, "核心乐趣"@, "案例拆解"@, "深度总结"@]
    } else {
        seq!["Concepts"@, "Core Appeal"@, "Case Study"@, "Deep Summary"@]
    }
}

/// Words that place a timeline label in each lane.
pub open spec fn lane_words(lane: int) -> Seq<Seq<char>> {
    if lane == 0 {
        seq!["概念"@, "定义"@, "背景"@, "concept"@, "definition"@, "background"@]
    } else if lane == 1 {
        seq!["核心"@, "乐趣"@, "兴趣"@, "core"@, "appeal"@, "fun"@, "why"@]
    } else if lane == 2 {
        seq!["案例"@, "拆解"@, "对比"@, "case"@, "study"@, "example"@, "comparison"@]
    } else {
        seq!["总结"@, "结论"@, "展望"@, "deep"@, "conclusion"@, "takeaway"@, "future"@]
    }
}

/// The lane of a label: the first whose words it contains (trimmed and
/// lower-cased), else the first lane.
pub open spec fn lane_of(label: Seq<char>) -> int {
    let l = lower_of(trim(label));
    if crate::translate::contains_any(l, lane_words(0)) {
        0
    } else if crate::translate::contains_any(l, lane_words(1)) {
        1
    } else if crate::translate::contains_any(l, lane_words(2)) {
        2
    } else if crate::translate::contains_any(l, lane_words(3)) {
        3
    } else {
        0
    }
}

/// The key of the lane that a timeline label belongs to.
pub fn canonical_summary_timeline_lane_key(label: &str, prefer_zh: bool) -> (r: String)
    ensures
        r@ == lane_key_of(lane_names(prefer_zh)[lane_of(label@)], lane_names(prefer_zh)[lane_of(
            label@,
        )].len() as int),
{
    let v = chars_of(label);
    let t = trim_chars(v.as_slice());
    let ts = string_of(t.as_slice());
    let l = lowercase(ts.as_str());
    let w0 = vec!["概念", "定义", "背景", "concept", "definition", "background"];
    let w1 = vec!["核心", "乐趣", "兴趣", "core", "appeal", "fun", "why"];
    let w2 = vec!["案例", "拆解", "对比", "case", "study", "example", "comparison"];
    let w3 = vec!["总结", "结论", "展望", "deep", "conclusion", "takeaway", "future"];
    assert(w0@.map_values(|n: &str| n@) =~= lane_words(0));
    assert(w1@.map_values(|n: &str| n@) =~= lane_words(1));
    assert(w2@.map_values(|n: &str| n@) =~= lane_words(2));
    assert(w3@.map_values(|n: &str| n@) =~= lane_words(3));
    let lane: usize = if crate::translate::contains_any_exec(l.as_str(), &w0) {
        0
    } else if crate::translate::contains_any_exec(l.as_str(), &w1) {
        1
    } else if crate::translate::contains_any_exec(l.as_str(), &w2) {
        2
    } else if crate::translate::contains_any_exec(l.as_str(), &w3) {
        3
    } else {
        0
    };
    let names = if prefer_zh {
        vec!["概念定义", "核心乐趣", "案例拆解", "深度总结"]
    } else {
        vec!["Concepts", "Core Appeal", "Case Study", "Deep Summary"]
    };
    assert(names@.map_values(|n: &str| n@) =~= lane_names(prefer_zh));
    assert(names@[lane as int]@ == lane_names(prefer_zh)[lane as int]);
    normalize_lane_key(names[lane])
}

/// The markdown with its mermaid code blocks removed; an unterminated one
/// takes the rest of the text with it.
pub open spec fn without_mermaid(rest: Seq<char>) -> Seq<char>
    decreases rest.len(),
{
    let i = find_seq(rest, "```mermaid"@);
    if i < 0 || i + 3 > rest.len() {
        rest
    } else {
        let a = rest.subrange(i + 3, rest.len() as int);
        let e = find_seq(a, "```"@);
        if e < 0 || e + 3 > a.len() {
            rest.subrange(0, i)
        } else {
            rest.subrange(0, i) + without_mermaid(a.subrange(e + 3, a.len() as int))
        }
    }
}

/// Removes the mermaid code blocks of a markdown text.
pub fn strip_mermaid_code_blocks(markdown: &str) -> (r: String)
    ensures
        r@ == without_mermaid(markdown@),
{
    let open = chars_of("```mermaid");
    let fence = chars_of("```");
    proof {
        reveal_strlit("```mermaid");
        reveal_strlit("```");
    }
    let mut rest = chars_of(markdown);
    let mut out: Vec<char> = Vec::new();
    loop
        invariant
            open@ == "```mermaid"@,
            fence@ == "```"@,
            open@.len() == 10,
            fence@.len() == 3,
            out@ + without_mermaid(rest@) == without_mermaid(markdown@),
        decreases rest@.len(),
    {
        let rl = rest.len();
        match crate::text::find_seq_exec(rest.as_slice(), open.as_slice()) {
            None => {
                let o = crate::text::concat_chars(out.as_slice(), rest.as_slice());
                return string_of(o.as_slice());
            },
            Some(i) => {
                let a = slice_chars(rest.as_slice(), i + 3, rl);
                let head = slice_chars(rest.as_slice(), 0, i);
                let o = crate::text::concat_chars(out.as_slice(), head.as_slice());
                let al = a.len();
                match crate::text::find_seq_exec(a.as_slice(), fence.as_slice()) {
                    None => {
                        assert(o@ =~= out@ + without_mermaid(rest@));
                        return string_of(o.as_slice());
                    },
                    Some(e) => {
                        let next = slice_chars(a.as_slice(), e + 3, al);
                        assert(o@ + without_mermaid(next@) =~= out@ + without_mermaid(rest@));
                        out = o;
                        rest = next;
                    },
                }
            },
        }
    }
}

/// The headings of the two diagrams, in Chinese or English.
pub open spec fn diagram_headings(prefer_zh: bool) -> (Seq<char>, Seq<char>) {
    if prefer_zh {
        ("视频叙事流程"@, "逻辑脑图"@)
    } else {
        ("Narrative Timeline"@, "Logic Mind Map"@)
    }
}

/// A summary followed by its two diagrams, each under a heading in a
/// mermaid code block.
pub open spec fn with_diagrams(content: Seq<char>, timeline: Seq<char>, mindmap: Seq<char>, prefer_zh: bool) -> Seq<char> {
    let c = trim(content);
    let (h1, h2) = diagram_headings(prefer_zh);
    (if c.len() > 0 {
        c + "\n\n"@
    } else {
        c
    }) + "## "@ + h1 + "\n\n```mermaid\n"@ + trim(timeline) + "\n```\n\n"@ + "## "@ + h2
        + "\n\n```mermaid\n"@ + trim(mindmap) + "\n```\n"@
}

/// Appends the timeline and mind map diagrams to a summary.
pub fn append_summary_diagrams(content: &str, timeline_mmd: &str, mindmap_mmd: &str, prefer_zh: bool) -> (r: String)
    ensures
        r@ == with_diagrams(content@, timeline_mmd@, mindmap_mmd@, prefer_zh),
{
    let cv = chars_of(content);
    let ct = trim_chars(cv.as_slice());
    let mut out = string_of(ct.as_slice());
    if ct.len() > 0 {
        out.append("\n\n");
    }
    let (h1, h2) = if prefer_zh {
        ("视频叙事流程", "逻辑脑图")
    } else {
        ("Narrative Timeline", "Logic Mind Map")
    };
    let tv = chars_of(timeline_mmd);
    let tt = trim_chars(tv.as_slice());
    let ts = string_of(tt.as_slice());
    let mv = chars_of(mindmap_mmd);
    let mt = trim_chars(mv.as_slice());
    let ms = string_of(mt.as_slice());
    out.append("## ");
    out.append(h1);
    out.append("\n\n```mermaid\n");
    out.append(ts.as_str());
    out.append("\n```\n\n");
    out.append("## ");
    out.append(h2);
    out.append("\n\n```mermaid\n");
    out.append(ms.as_str());
    out.append("\n```\n");
    out
}



/// Deepest level of a mind map that is drawn.
pub const MAX_MINDMAP_DEPTH: usize = 6;

/// The label of a mind map node: the node itself when it is a string, else
/// its `label` member; trimmed.
pub open spec fn node_label(node: Json) -> Seq<char> {
    match node {
        Json::Str(s) => trim(s@),
        _ => trim(opt_str_of(get(node, "label"@))),
    }
}

/// `n` copies of two spaces.
pub open spec fn indent(n: nat) -> Seq<char>
    decreases n,
{
    if n == 0 {
        Seq::empty()
    } else {
        indent((n - 1) as nat) + seq![' ', ' ']
    }
}

/// The children of a node.
pub open spec fn node_children(node: Json) -> Seq<Json> {
    match get(node, "children"@) {
        Some(Json::Array(a)) => a@,
        _ => Seq::empty(),
    }
}

/// The lines that draw `node` at `depth`, with its children below it, and
/// how many there are. Nodes below `MAX_MINDMAP_DEPTH` and nodes without a
/// label are not drawn, nor is anything under them.
pub open spec fn node_lines(node: Json, depth: nat) -> (Seq<char>, nat)
    decreases MAX_MINDMAP_DEPTH + 1 - depth, 1nat, 0nat,
{
    if depth > MAX_MINDMAP_DEPTH || node_label(node).len() == 0 {
        (Seq::empty(), 0)
    } else {
        let head = indent(depth) + diagram_label(node_label(node)) + seq!['\n'];
        let rest = children_lines(node_children(node), depth + 1, node_children(node).len() as nat);
        (head + rest.0, 1 + rest.1)
    }
}

/// The lines that draw the first `n` of `children` at `depth`.
pub open spec fn children_lines(children: Seq<Json>, depth: nat, n: nat) -> (Seq<char>, nat)
    decreases MAX_MINDMAP_DEPTH + 1 - depth + 1, 0nat, n,
{
    if n == 0 || n > children.len() || depth > MAX_MINDMAP_DEPTH {
        (Seq::empty(), 0)
    } else {
        let prev = children_lines(children, depth, (n - 1) as nat);
        let last = node_lines(children[n - 1], depth);
        (prev.0 + last.0, prev.1 + last.1)
    }
}


proof fn lemma_node_lines_count(node: Json, depth: nat)
    ensures
        node_lines(node, depth).1 <= node_lines(node, depth).0.len(),
    decreases MAX_MINDMAP_DEPTH + 1 - depth, 1nat, 0nat,
{
    if !(depth > MAX_MINDMAP_DEPTH || node_label(node).len() == 0) {
        lemma_children_lines_count(node_children(node), depth + 1, node_children(node).len() as nat);
    }
}

proof fn lemma_children_lines_count(children: Seq<Json>, depth: nat, n: nat)
    ensures
        children_lines(children, depth, n).1 <= children_lines(children, depth, n).0.len(),
    decreases MAX_MINDMAP_DEPTH + 1 - depth + 1, 0nat, n,
{
    if !(n == 0 || n > children.len() || depth > MAX_MINDMAP_DEPTH) {
        lemma_children_lines_count(children, depth, (n - 1) as nat);
        lemma_node_lines_count(children[n - 1], depth);
    }
}

fn push_chars(out: &mut Vec<char>, s: &[char])
    ensures
        final(out)@ == old(out)@ + s@,
{
    let mut k: usize = 0;
    while k < s.len()
        invariant
            k <= s@.len(),
            out@ == old(out)@ + s@.subrange(0, k as int),
        decreases s@.len() - k,
    {
        out.push(s[k]);
        k = k + 1;
        assert(out@ =~= old(out)@ + s@.subrange(0, k as int));
    }
    assert(s@.subrange(0, s@.len() as int) =~= s@);
}

fn node_label_exec(node: &Json) -> (r: Vec<char>)
    ensures
        r@ == node_label(*node),
{
    match node {
        Json::Str(s) => {
            let c = chars_of(s.as_str());
            trim_chars(c.as_slice())
        },
        _ => {
            let k = chars_of("label");
            let c: Vec<char> = match get_exec(node, k.as_slice()) {
                Some(Json::Str(s)) => chars_of(s.as_str()),
                _ => Vec::new(),
            };
            trim_chars(c.as_slice())
        },
    }
}

fn draw_node(out: &mut Vec<char>, node: &Json, depth: usize) -> (count: usize)
    ensures
        final(out)@ == old(out)@ + node_lines(*node, depth as nat).0,
        count == node_lines(*node, depth as nat).1,
    decreases MAX_MINDMAP_DEPTH + 1 - depth, 1nat, 0nat,
{
    if depth > MAX_MINDMAP_DEPTH {
        return 0;
    }
    let label = node_label_exec(node);
    if label.len() == 0 {
        return 0;
    }
    let mut i: usize = 0;
    let ghost start = out@;
    while i < depth
        invariant
            i <= depth,
            out@ == start + indent(i as nat),
        decreases depth - i,
    {
        out.push(' ');
        out.push(' ');
        i = i + 1;
        assert(out@ =~= start + indent(i as nat));
    }
    let ls = string_of(label.as_slice());
    let shown = sanitize_mermaid_label(ls.as_str());
    let sc = chars_of(shown.as_str());
    push_chars(out, sc.as_slice());
    out.push('\n');
    assert(out@ =~= start + (indent(depth as nat) + diagram_label(node_label(*node)) + seq!['\n']));
    let ghost mid = out@;
    let kc = chars_of("children");
    let children_count = match get_exec(node, kc.as_slice()) {
        Some(Json::Array(children)) => draw_children(out, children, depth + 1),
        _ => 0,
    };
    proof {
        lemma_node_lines_count(*node, depth as nat);
        assert(node_lines(*node, depth as nat).0 =~= (indent(depth as nat) + diagram_label(node_label(*node))
            + seq!['\n']) + children_lines(node_children(*node), (depth + 1) as nat, node_children(*node).len() as nat).0);
    }
    let _ = out.len();
    1 + children_count
}

fn draw_children(out: &mut Vec<char>, children: &Vec<Json>, depth: usize) -> (count: usize)
    ensures
        final(out)@ == old(out)@ + children_lines(children@, depth as nat, children@.len() as nat).0,
        count == children_lines(children@, depth as nat, children@.len() as nat).1,
    decreases MAX_MINDMAP_DEPTH + 1 - depth + 1, 0nat, 0nat,
{
    if depth > MAX_MINDMAP_DEPTH {
        return 0;
    }
    let ghost start = out@;
    let mut count: usize = 0;
    let mut i: usize = 0;
    while i < children.len()
        invariant
            i <= children@.len(),
            depth <= MAX_MINDMAP_DEPTH,
            out@ == start + children_lines(children@, depth as nat, i as nat).0,
            count == children_lines(children@, depth as nat, i as nat).1,
        decreases children@.len() - i,
    {
        let ghost before = out@;
        let c = draw_node(out, &children[i], depth);
        proof {
            lemma_children_lines_count(children@, depth as nat, (i + 1) as nat);
            assert(children_lines(children@, depth as nat, (i + 1) as nat).0 =~= children_lines(
                children@,
                depth as nat,
                i as nat,
            ).0 + node_lines(children@[i as int], depth as nat).0);
        }
        let _ = out.len();
        count = count + c;
        i = i + 1;
        assert(out@ =~= start + children_lines(children@, depth as nat, i as nat).0);
    }
    count
}

/// Appends the lines that draw a mind map node at `depth`, with its
/// children below it (see `node_lines`).
pub fn build_summary_mindmap_node(out: &mut String, node: &Json, depth: usize)
    ensures
        final(out)@ == old(out)@ + node_lines(*node, depth as nat).0,
{
    let mut v = chars_of(out.as_str());
    let _ = draw_node(&mut v, node, depth);
    *out = string_of(v.as_slice());
}

/// The name of the root when the document gives none.
pub open spec fn default_root(prefer_zh: bool) -> Seq<char> {
    if prefer_zh {
        "逻辑结构"@
    } else {
        "Logic Map"@
    }
}

/// The skeleton drawn under a root with fewer than two lines of its own.
pub open spec fn skeleton(prefer_zh: bool) -> Seq<char> {
    if prefer_zh {
        "    主题\n      观点\n      证据\n      结论\n"@
    } else {
        "    Topic\n      Claims\n      Evidence\n      Conclusion\n"@
    }
}

/// The mermaid mind map of a summary's `{root, children}` document.
pub open spec fn mindmap_text(mindmap: Option<Json>, prefer_zh: bool) -> Seq<char> {
    let root = match mindmap {
        Some(m) => match get(m, "root"@) {
            Some(Json::Str(s)) => s@,
            _ => default_root(prefer_zh),
        },
        None => default_root(prefer_zh),
    };
    let children = match mindmap {
        Some(m) => node_children(m),
        None => Seq::empty(),
    };
    let body = children_lines(children, 2, children.len() as nat);
    let text = "mindmap\n"@ + "  root(("@ + diagram_label(root) + "))\n"@ + body.0;
    if body.1 < 2 {
        text + skeleton(prefer_zh)
    } else {
        text
    }
}

/// Draws a summary's mind map: the root, its children two levels in, and a
/// skeleton when fewer than two nodes were drawn.
pub fn build_summary_mindmap(mindmap: Option<&Json>, prefer_zh: bool) -> (r: String)
    ensures
        r@ == mindmap_text(
            match mindmap {
                Some(m) => Some(*m),
                None => None,
            },
            prefer_zh,
        ),
{
    let kr = chars_of("root");
    let root: Vec<char> = match mindmap {
        Some(m) => match get_exec(m, kr.as_slice()) {
            Some(Json::Str(s)) => chars_of(s.as_str()),
            _ => if prefer_zh {
                chars_of("逻辑结构")
            } else {
                chars_of("Logic Map")
            },
        },
        None => if prefer_zh {
            chars_of("逻辑结构")
        } else {
            chars_of("Logic Map")
        },
    };
    let rs = string_of(root.as_slice());
    let shown = sanitize_mermaid_label(rs.as_str());
    let mut out = String::from_str("mindmap\n");
    out.append("  root((");
    out.append(shown.as_str());
    out.append("))\n");
    let mut v = chars_of(out.as_str());
    let ghost head = v@;
    let kc = chars_of("children");
    let count = match mindmap {
        Some(m) => match get_exec(m, kc.as_slice()) {
            Some(Json::Array(children)) => draw_children(&mut v, children, 2),
            _ => {
                assert(v@ =~= head + Seq::<char>::empty());
                0
            },
        },
        None => {
            assert(v@ =~= head + Seq::<char>::empty());
            0
        },
    };
    let mut r = string_of(v.as_slice());
    if count < 2 {
        if prefer_zh {
            r.append("    主题\n      观点\n      证据\n      结论\n");
        } else {
            r.append("    Topic\n      Claims\n      Evidence\n      Conclusion\n");
        }
    }
    r
}

} // verus!
