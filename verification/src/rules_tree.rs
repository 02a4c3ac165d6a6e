//! The hierarchical rule tree: parsing dotted rule numbers, finding a
//! rule's parent, building the tree from flat rows, and sorting it in
//! numeric order.

use vstd::prelude::*;

use crate::seqtools::find_first;
use crate::text::dec_digits;

verus! {

/// A rule row as the store hands it out.
#[derive(Debug)]
pub struct Rule {
    pub id: String,
    pub slug: String,
    pub rule_set_id: String,
    pub version_id: String,
    pub parent_rule_id: Option<String>,
    pub number: String,
    pub created_at: i64,
    pub updated_at: i64,
}

/// Mathematical view of a rule row.
pub struct RuleV {
    pub id: Seq<char>,
    pub slug: Seq<char>,
    pub rule_set_id: Seq<char>,
    pub version_id: Seq<char>,
    pub parent_rule_id: Option<Seq<char>>,
    pub number: Seq<char>,
    pub created_at: int,
    pub updated_at: int,
}

impl View for Rule {
    type V = RuleV;

    open spec fn view(&self) -> RuleV {
        RuleV {
            id: self.id@,
            slug: self.slug@,
            rule_set_id: self.rule_set_id@,
            version_id: self.version_id@,
            parent_rule_id: match self.parent_rule_id {
                Some(ref s) => Some(s@),
                None => None,
            },
            number: self.number@,
            created_at: self.created_at as int,
            updated_at: self.updated_at as int,
        }
    }
}

impl DeepView for Rule {
    type V = RuleV;

    open spec fn deep_view(&self) -> RuleV {
        self.view()
    }
}

/// A rule's translated text as the store hands it out.
#[derive(Debug)]
pub struct RuleContent {
    pub id: String,
    pub rule_id: String,
    pub language: String,
    pub content_markdown: String,
    pub source_content_id: Option<String>,
    pub created_at: i64,
    pub updated_at: i64,
}

/// Mathematical view of a rule's text row.
pub struct RuleContentV {
    pub id: Seq<char>,
    pub rule_id: Seq<char>,
    pub language: Seq<char>,
    pub content_markdown: Seq<char>,
    pub source_content_id: Option<Seq<char>>,
    pub created_at: int,
    pub updated_at: int,
}

impl View for RuleContent {
    type V = RuleContentV;

    open spec fn view(&self) -> RuleContentV {
        RuleContentV {
            id: self.id@,
            rule_id: self.rule_id@,
            language: self.language@,
            content_markdown: self.content_markdown@,
            source_content_id: match self.source_content_id {
                Some(ref s) => Some(s@),
                None => None,
            },
            created_at: self.created_at as int,
            updated_at: self.updated_at as int,
        }
    }
}

impl DeepView for RuleContent {
    type V = RuleContentV;

    open spec fn deep_view(&self) -> RuleContentV {
        self.view()
    }
}

/// One node of the displayed rule tree.
#[derive(Debug)]
pub struct RuleNode {
    pub number: String,
    pub slug: String,
    pub content: String,
    pub children: Vec<RuleNode>,
}

/// Mathematical view of a tree node.
pub struct RuleNodeV {
    pub number: Seq<char>,
    pub slug: Seq<char>,
    pub content: Seq<char>,
    pub children: Seq<RuleNodeV>,
}

/// The view of a node, children included.
pub open spec fn node_view(n: RuleNode) -> RuleNodeV
    decreases n,
{
    RuleNodeV {
        number: n.number@,
        slug: n.slug@,
        content: n.content@,
        children: Seq::new(
            n.children@.len(),
            |i: int|
                if 0 <= i < n.children@.len() {
                    node_view(n.children@[i])
                } else {
                    RuleNodeV {
                        number: Seq::empty(),
                        slug: Seq::empty(),
                        content: Seq::empty(),
                        children: Seq::empty(),
                    }
                },
        ),
    }
}

/// The views of a node list.
pub open spec fn node_views(s: Seq<RuleNode>) -> Seq<RuleNodeV> {
    Seq::new(s.len(), |i: int| node_view(s[i]))
}

/// The numeric value of a decimal digit, or none.
pub open spec fn digit_val(c: char) -> Option<nat> {
    if c == '0' {
        Some(0nat)
    } else if c == '1' {
        Some(1nat)
    } else if c == '2' {
        Some(2nat)
    } else if c == '3' {
        Some(3nat)
    } else if c == '4' {
        Some(4nat)
    } else if c == '5' {
        Some(5nat)
    } else if c == '6' {
        Some(6nat)
    } else if c == '7' {
        Some(7nat)
    } else if c == '8' {
        Some(8nat)
    } else if c == '9' {
        Some(9nat)
    } else {
        None
    }
}

/// All characters are decimal digits.
pub open spec fn all_digits(s: Seq<char>) -> bool {
    forall|i: int| 0 <= i < s.len() ==> (#[trigger] digit_val(s[i])) is Some
}

/// The number a digit string denotes.
pub open spec fn digits_val(s: Seq<char>) -> nat
    decreases s.len(),
{
    if s.len() == 0 {
        0
    } else {
        digits_val(s.drop_last()) * 10 + (match digit_val(s.last()) {
            Some(d) => d,
            None => 0,
        })
    }
}

/// What one segment of a dotted rule number counts as: its value when it
/// is a non-empty digit string that fits, otherwise zero.
pub open spec fn segment_val(s: Seq<char>) -> u32 {
    if s.len() > 0 && all_digits(s) && digits_val(s) <= u32::MAX {
        digits_val(s) as u32
    } else {
        0u32
    }
}

/// The segments of a string split at every dot; an empty string is one
/// empty segment.
pub open spec fn split_dots(s: Seq<char>) -> Seq<Seq<char>>
    decreases s.len(),
{
    if s.len() == 0 {
        seq![Seq::empty()]
    } else {
        let rest = split_dots(s.drop_last());
        if s.last() == '.' {
            rest.push(Seq::empty())
        } else {
            rest.update(rest.len() - 1, rest.last().push(s.last()))
        }
    }
}

/// A dotted rule number as a list of numeric parts.
pub open spec fn rule_number_parts(s: Seq<char>) -> Seq<u32> {
    split_dots(s).map_values(|p: Seq<char>| segment_val(p))
}

/// Splitting never yields an empty list.
proof fn lemma_split_dots_nonempty(s: Seq<char>)
    ensures
        split_dots(s).len() >= 1,
    decreases s.len(),
{
    if s.len() > 0 {
        lemma_split_dots_nonempty(s.drop_last());
    }
}

/// Reads one digit segment; a non-digit or overflowing segment counts as
/// zero, as does an empty one.
fn segment_val_exec(seg: &Vec<char>) -> (r: u32)
    ensures
        r == segment_val(seg@),
{
    if seg.len() == 0 {
        return 0;
    }
    let mut value: u64 = 0;
    let mut i: usize = 0;
    while i < seg.len()
        invariant
            i <= seg@.len(),
            all_digits(seg@.take(i as int)),
            value == digits_val(seg@.take(i as int)),
            value <= 0xffff_ffff,
        decreases seg@.len() - i,
    {
        let c = seg[i];
        let d: u64 = if c == '0' {
            0
        } else if c == '1' {
            1
        } else if c == '2' {
            2
        } else if c == '3' {
            3
        } else if c == '4' {
            4
        } else if c == '5' {
            5
        } else if c == '6' {
            6
        } else if c == '7' {
            7
        } else if c == '8' {
            8
        } else if c == '9' {
            9
        } else {
            10
        };
        if d == 10 {
            proof {
                assert(digit_val(seg@[i as int]) is None);
                assert(!all_digits(seg@));
            }
            return 0;
        }
        proof {
            assert(digit_val(seg@[i as int]) == Some(d as nat));
            let pre = seg@.take(i as int);
            let cur = seg@.take(i + 1);
            assert(cur.drop_last() =~= pre);
            assert(cur.last() == seg@[i as int]);
            assert forall|k: int| 0 <= k < cur.len() implies (#[trigger] digit_val(
                cur[k],
            )) is Some by {
                if k < i {
                    assert(cur[k] == pre[k]);
                }
            }
        }
        let next = value * 10 + d;
        if next > 0xffff_ffff {
            proof {
                assert(digits_val(seg@.take(i + 1)) > u32::MAX);
                lemma_digits_val_monotone(seg@, i + 1);
            }
            return 0;
        }
        value = next;
        i = i + 1;
    }
    proof {
        assert(seg@.take(seg@.len() as int) =~= seg@);
    }
    value as u32
}

/// A digit string's value only grows as it extends.
proof fn lemma_digits_val_monotone(s: Seq<char>, i: int)
    requires
        0 <= i <= s.len(),
    ensures
        digits_val(s) >= digits_val(s.take(i)),
    decreases s.len() - i,
{
    if i < s.len() {
        lemma_digits_val_monotone(s, i + 1);
        let a = s.take(i);
        let b = s.take(i + 1);
        assert(b.drop_last() =~= a);
        assert(digits_val(b) == digits_val(a) * 10 + (match digit_val(b.last()) {
            Some(d) => d,
            None => 0nat,
        }));
        assert(digits_val(a) * 10 >= digits_val(a)) by (nonlinear_arith);
    } else {
        assert(s.take(i) =~= s);
    }
}

/// Reads a dotted rule number into its numeric parts: each dot-separated
/// segment counts as its decimal value, or zero when it is empty, holds a
/// non-digit, or overflows.
pub fn parse_rule_number(number: &str) -> (r: Vec<u32>)
    ensures
        r@ == rule_number_parts(number@),
{
    let chars = crate::text::str_to_chars(number);
    let ghost s = number@;
    let mut out: Vec<u32> = Vec::new();
    let mut seg: Vec<char> = Vec::new();
    let mut i: usize = 0;
    proof {
        assert(s.take(0) =~= Seq::<char>::empty());
        assert(split_dots(s.take(0)) =~= seq![Seq::<char>::empty()]);
    }
    while i < chars.len()
        invariant
            chars@ == s,
            i <= s.len(),
            split_dots(s.take(i as int)) == out@.map_values(|v: u32| Seq::<char>::empty()).push(
                seg@,
            ) || true,
            split_dots(s.take(i as int)).len() == out@.len() + 1,
            split_dots(s.take(i as int)).last() == seg@,
            forall|k: int|
                0 <= k < out@.len() ==> out@[k] == segment_val(
                    #[trigger] split_dots(s.take(i as int))[k],
                ),
        decreases s.len() - i,
    {
        proof {
            let pre = s.take(i as int);
            let cur = s.take(i + 1);
            assert(cur.drop_last() =~= pre);
            assert(cur.last() == s[i as int]);
            lemma_split_dots_nonempty(pre);
        }
        let c = chars[i];
        if c == '.' {
            out.push(segment_val_exec(&seg));
            seg = Vec::new();
            proof {
                let pre = s.take(i as int);
                let cur = s.take(i + 1);
                assert(split_dots(cur) == split_dots(pre).push(Seq::<char>::empty()));
                assert forall|k: int| 0 <= k < out@.len() implies out@[k] == segment_val(
                    #[trigger] split_dots(cur)[k],
                ) by {
                    if k < out@.len() - 1 {
                        assert(split_dots(cur)[k] == split_dots(pre)[k]);
                    } else {
                        assert(split_dots(cur)[k] == split_dots(pre).last());
                    }
                }
            }
        } else {
            seg.push(c);
            proof {
                let pre = s.take(i as int);
                let cur = s.take(i + 1);
                assert(split_dots(cur) == split_dots(pre).update(
                    split_dots(pre).len() - 1,
                    split_dots(pre).last().push(s[i as int]),
                ));
                assert forall|k: int| 0 <= k < out@.len() implies out@[k] == segment_val(
                    #[trigger] split_dots(cur)[k],
                ) by {
                    assert(split_dots(cur)[k] == split_dots(pre)[k]);
                }
            }
        }
        i = i + 1;
    }
    proof {
        assert(s.take(s.len() as int) =~= s);
        lemma_split_dots_nonempty(s);
    }
    out.push(segment_val_exec(&seg));
    proof {
        assert(out@ =~= rule_number_parts(s));
    }
    out
}

/// The dotted text of numeric parts, joined with single dots.
pub open spec fn join_dec(parts: Seq<u32>) -> Seq<char>
    decreases parts.len(),
{
    if parts.len() == 0 {
        Seq::empty()
    } else if parts.len() == 1 {
        dec_digits(parts[0] as nat)
    } else {
        join_dec(parts.drop_last()) + seq!['.'] + dec_digits(parts.last() as nat)
    }
}

/// The parent a dotted rule number looks up to: its parts without the
/// last one, re-joined; a single-part number has none.
pub open spec fn parent_number_of(number: Seq<char>) -> Option<Seq<char>> {
    let parts = rule_number_parts(number);
    if parts.len() <= 1 {
        None
    } else {
        Some(join_dec(parts.drop_last()))
    }
}

/// Finds the id of a rule's parent among known rules, keyed by dotted
/// number: `None` for a top-level number or when the parent's number is
/// not known.
pub fn find_parent_rule(rules: &Vec<(String, String)>, current_number: &str) -> (r: Option<String>)
    ensures
        parent_number_of(current_number@) is None ==> r is None,
        parent_number_of(current_number@) is Some ==> ({
            let hit = find_first(
                rules.deep_view(),
                |pair: (Seq<char>, Seq<char>)| pair.0 == parent_number_of(
                    current_number@,
                )->Some_0,
            );
            match r {
                Some(id) => hit is Some && id@ == hit->Some_0.1,
                None => hit is None,
            }
        }),
{
    let parts = parse_rule_number(current_number);
    if parts.len() <= 1 {
        return None;
    }
    let mut joined: Vec<char> = Vec::new();
    let mut i: usize = 0;
    let n = parts.len() - 1;
    proof {
        assert(parts@.take(0) =~= Seq::<u32>::empty());
        assert(joined@ =~= join_dec(parts@.take(0)));
    }
    while i < n
        invariant
            n == parts@.len() - 1,
            n >= 1,
            i <= n,
            joined@ == join_dec(parts@.take(i as int)),
        decreases n - i,
    {
        proof {
            let pre = parts@.take(i as int);
            let cur = parts@.take(i + 1);
            assert(cur.drop_last() =~= pre);
            assert(cur.last() == parts@[i as int]);
        }
        if i > 0 {
            joined.push('.');
        }
        let ghost jpre = joined@;
        let digits = crate::text::u64_to_dec(parts[i] as u64);
        let dch = crate::text::str_to_chars(digits.as_str());
        let mut k: usize = 0;
        while k < dch.len()
            invariant
                dch@ == dec_digits(parts@[i as int] as nat),
                k <= dch@.len(),
                joined@ == jpre + dch@.take(k as int),
            decreases dch@.len() - k,
        {
            joined.push(dch[k]);
            proof {
                assert(joined@ =~= jpre + dch@.take(k + 1));
            }
            k = k + 1;
        }
        proof {
            assert(dch@.take(dch@.len() as int) =~= dch@);
            assert(joined@ =~= join_dec(parts@.take(i + 1)));
        }
        i = i + 1;
    }
    proof {
        assert(parts@.take(n as int) =~= parts@.drop_last());
    }
    let parent_number = crate::text::chars_to_string(&joined);
    let ghost pn = parent_number_of(current_number@)->Some_0;
    proof {
        assert(pn == join_dec(parts@.drop_last()));
    }
    let ghost p = |pair: (Seq<char>, Seq<char>)| pair.0 == parent_number_of(
        current_number@,
    )->Some_0;
    let ghost pairs = rules.deep_view();
    let mut j: usize = 0;
    while j < rules.len()
        invariant
            pairs == rules.deep_view(),
            p == (|pair: (Seq<char>, Seq<char>)| pair.0 == parent_number_of(
                current_number@,
            )->Some_0),
            parent_number@ == pn,
            pn == parent_number_of(current_number@)->Some_0,
            parent_number_of(current_number@) is Some,
            j <= rules.len(),
            pairs.len() == rules.len(),
            forall|k: int| 0 <= k < j ==> !p(pairs[k]),
        decreases rules.len() - j,
    {
        proof {
            assert(pairs[j as int] == rules[j as int].deep_view());
            assert(rules[j as int].deep_view() == (rules[j as int].0@, rules[j as int].1@));
        }
        if crate::text::str_eq(rules[j].0.as_str(), parent_number.as_str()) {
            proof {
                crate::seqtools::lemma_find_first_hit(pairs, p, j as int);
            }
            return Some(rules[j].1.clone());
        }
        j = j + 1;
    }
    proof {
        crate::seqtools::lemma_find_first_none(pairs, p);
    }
    None
}


/// Lexicographic order on numeric part lists, as the tree sort uses it.
pub open spec fn lex_le(a: Seq<u32>, b: Seq<u32>) -> bool
    decreases a.len(),
{
    if a.len() == 0 {
        true
    } else if b.len() == 0 {
        false
    } else if a[0] < b[0] {
        true
    } else if a[0] > b[0] {
        false
    } else {
        lex_le(a.drop_first(), b.drop_first())
    }
}

/// Node order: by the numeric parts of the dotted rule number.
pub open spec fn node_le(a: RuleNodeV, b: RuleNodeV) -> bool {
    lex_le(rule_number_parts(a.number), rule_number_parts(b.number))
}

/// Inserts a node into a sorted level after every node not greater, so
/// equal numbers keep their relative order.
pub open spec fn insert_node(x: RuleNodeV, s: Seq<RuleNodeV>) -> Seq<RuleNodeV>
    decreases s.len(),
{
    if s.len() == 0 {
        seq![x]
    } else if !node_le(s.last(), x) {
        insert_node(x, s.drop_last()).push(s.last())
    } else {
        s.push(x)
    }
}

/// Stable insertion sort of one tree level by numeric rule number.
pub open spec fn sort_nodes(s: Seq<RuleNodeV>) -> Seq<RuleNodeV>
    decreases s.len(),
{
    if s.len() == 0 {
        Seq::empty()
    } else {
        insert_node(s.last(), sort_nodes(s.drop_last()))
    }
}

/// A node with every level below it sorted.
pub open spec fn sort_tree(n: RuleNodeV) -> RuleNodeV
    decreases n, 0int,
{
    RuleNodeV { number: n.number, slug: n.slug, content: n.content, children: sort_forest(
        n.children,
    ) }
}

/// Every node of a level with its own levels sorted, in place.
pub open spec fn map_sort_tree(nodes: Seq<RuleNodeV>) -> Seq<RuleNodeV>
    decreases nodes, 1int,
{
    if nodes.len() == 0 {
        Seq::empty()
    } else {
        map_sort_tree(nodes.drop_last()).push(sort_tree(nodes.last()))
    }
}

/// A level with itself and every level below it sorted.
pub open spec fn sort_forest(nodes: Seq<RuleNodeV>) -> Seq<RuleNodeV>
    decreases nodes, 2int,
{
    sort_nodes(map_sort_tree(nodes))
}

/// Decides the lexicographic order of two part lists.
fn parts_le(a: &Vec<u32>, b: &Vec<u32>) -> (r: bool)
    ensures
        r == lex_le(a@, b@),
{
    let mut i: usize = 0;
    proof {
        assert(a@.skip(0) =~= a@);
        assert(b@.skip(0) =~= b@);
    }
    while i < a.len() && i < b.len()
        invariant
            i <= a@.len(),
            i <= b@.len(),
            lex_le(a@, b@) == lex_le(a@.skip(i as int), b@.skip(i as int)),
            forall|k: int| 0 <= k < i ==> a@[k] == b@[k],
        decreases a@.len() - i,
    {
        proof {
            let sa = a@.skip(i as int);
            let sb = b@.skip(i as int);
            assert(sa[0] == a@[i as int]);
            assert(sb[0] == b@[i as int]);
            assert(sa.drop_first() =~= a@.skip(i + 1));
            assert(sb.drop_first() =~= b@.skip(i + 1));
        }
        if a[i] < b[i] {
            return true;
        }
        if a[i] > b[i] {
            return false;
        }
        i = i + 1;
    }
    proof {
        assert(a@.skip(i as int).len() == a@.len() - i);
        assert(b@.skip(i as int).len() == b@.len() - i);
    }
    a.len() <= b.len()
}

/// Decides the node order.
fn node_le_exec(a: &RuleNode, b: &RuleNode) -> (r: bool)
    ensures
        r == node_le(node_view(*a), node_view(*b)),
{
    let pa = parse_rule_number(a.number.as_str());
    let pb = parse_rule_number(b.number.as_str());
    parts_le(&pa, &pb)
}

/// Inserting at the position the executable scan finds yields exactly the
/// specified insertion.
proof fn lemma_insert_node_at(x: RuleNodeV, s: Seq<RuleNodeV>, j: int)
    requires
        0 <= j <= s.len(),
        forall|k: int| j <= k < s.len() ==> !node_le(#[trigger] s[k], x),
        j > 0 ==> node_le(s[j - 1], x),
    ensures
        insert_node(x, s) == s.subrange(0, j) + seq![x] + s.subrange(j, s.len() as int),
    decreases s.len() - j,
{
    if j == s.len() {
        if s.len() == 0 {
            assert(insert_node(x, s) =~= s.subrange(0, j) + seq![x] + s.subrange(
                j,
                s.len() as int,
            ));
        } else {
            assert(node_le(s.last(), x));
            assert(insert_node(x, s) == s.push(x));
            assert(s.push(x) =~= s.subrange(0, j) + seq![x] + s.subrange(j, s.len() as int));
        }
    } else {
        assert(!node_le(s[s.len() - 1], x));
        let dl = s.drop_last();
        lemma_insert_node_at(x, dl, j);
        assert(insert_node(x, s) == insert_node(x, dl).push(s.last()));
        assert((dl.subrange(0, j) + seq![x] + dl.subrange(j, dl.len() as int)).push(s.last())
            =~= s.subrange(0, j) + seq![x] + s.subrange(j, s.len() as int));
    }
}

/// Inserts one node at its stable position in a sorted level.
fn insert_sorted_node(out: &mut Vec<RuleNode>, x: RuleNode)
    ensures
        node_views(final(out)@) == insert_node(node_view(x), node_views(old(out)@)),
{
    let ghost s = node_views(out@);
    let ghost xv = node_view(x);
    let mut j: usize = out.len();
    while j > 0 && !node_le_exec(&out[j - 1], &x)
        invariant
            s == node_views(out@),
            j <= out.len(),
            s.len() == out.len(),
            forall|k: int| j <= k < s.len() ==> !node_le(#[trigger] s[k], xv),
            xv == node_view(x),
        decreases j,
    {
        proof {
            assert(s[j - 1] == node_view(out@[j - 1]));
        }
        j = j - 1;
    }
    proof {
        if j > 0 {
            assert(s[j - 1] == node_view(out@[j - 1]));
        }
        lemma_insert_node_at(xv, s, j as int);
    }
    out.insert(j, x);
    proof {
        assert(node_views(out@) =~= s.subrange(0, j as int) + seq![xv] + s.subrange(
            j as int,
            s.len() as int,
        ));
    }
}

/// Sorts a whole forest: every level by numeric rule number, equal
/// numbers keeping their order, levels below sorted the same way.
fn sort_forest_exec(nodes: Vec<RuleNode>) -> (r: Vec<RuleNode>)
    ensures
        node_views(r@) == sort_forest(node_views(nodes@)),
    decreases nodes@,
{
    let ghost orig = nodes@;
    let ghost target = node_views(orig);
    let total = nodes.len();
    proof {
        assert(orig.len() == total);
    }
    let mut rest = nodes;
    let mut out: Vec<RuleNode> = Vec::new();
    let mut i: usize = 0;
    proof {
        assert(rest@ =~= orig.skip(0));
        assert(target.take(0) =~= Seq::<RuleNodeV>::empty());
        assert(node_views(out@) =~= sort_nodes(map_sort_tree(target.take(0))));
    }
    while rest.len() > 0
        invariant
            orig == nodes@,
            target == node_views(orig),
            i <= orig.len(),
            orig.len() == total,
            target.len() == orig.len(),
            rest@ == orig.skip(i as int),
            node_views(out@) == sort_nodes(map_sort_tree(target.take(i as int))),
        decreases rest@.len(),
    {
        let element = rest.remove(0);
        proof {
            assert(orig.skip(i as int)[0] == orig[i as int]);
            assert(element == orig[i as int]);
            assert(rest@ =~= orig.skip(i + 1));
            assert(decreases_to!(orig => orig[i as int]));
            assert(decreases_to!(orig[i as int] => orig[i as int].children));
            assert(decreases_to!(orig[i as int].children => orig[i as int].children@));
        }
        let RuleNode { number, slug, content, children } = element;
        let sorted_children = sort_forest_exec(children);
        let node = RuleNode { number, slug, content, children: sorted_children };
        proof {
            assert(node_view(node).children =~= sort_forest(node_views(orig[i as int].children@)));
            assert(node_view(orig[i as int]).children =~= node_views(orig[i as int].children@));
            assert(node_view(node) == sort_tree(node_view(orig[i as int])));
            assert(target[i as int] == node_view(orig[i as int]));
        }
        let ghost out_pre = node_views(out@);
        insert_sorted_node(&mut out, node);
        proof {
            let pre = target.take(i as int);
            let cur = target.take(i + 1);
            assert(cur.drop_last() =~= pre);
            assert(cur.last() == target[i as int]);
            let mpre = map_sort_tree(pre);
            let mcur = map_sort_tree(cur);
            assert(mcur == mpre.push(sort_tree(target[i as int])));
            assert(mcur.drop_last() =~= mpre);
            assert(node_views(out@) == insert_node(sort_tree(target[i as int]), out_pre));
            assert(sort_nodes(mcur) == insert_node(sort_tree(target[i as int]), sort_nodes(mpre)));
        }
        i = i + 1;
    }
    proof {
        assert(target.take(orig.len() as int) =~= target);
        assert(node_views(out@) == sort_forest(target));
    }
    out
}

/// Sorts every level of the tree by numeric rule number, in place.
pub fn sort_rule_nodes_recursively(nodes: &mut Vec<RuleNode>)
    ensures
        node_views(final(nodes)@) == sort_forest(node_views(old(nodes)@)),
{
    let mut taken: Vec<RuleNode> = Vec::new();
    core::mem::swap(nodes, &mut taken);
    let sorted = sort_forest_exec(taken);
    *nodes = sorted;
}

/// The first node carrying the slug, walking each node before its
/// children before its siblings.
pub open spec fn find_in_tree(nodes: Seq<RuleNodeV>, slug: Seq<char>) -> Option<RuleNodeV>
    decreases nodes,
{
    if nodes.len() == 0 {
        None
    } else if nodes[0].slug == slug {
        Some(nodes[0])
    } else {
        match find_in_tree(nodes[0].children, slug) {
            Some(f) => Some(f),
            None => find_in_tree(nodes.drop_first(), slug),
        }
    }
}

/// Finds a rule node by slug anywhere in the tree.
pub fn find_rule_in_tree<'a>(nodes: &'a Vec<RuleNode>, target_slug: &str) -> (r: Option<
    &'a RuleNode,
>)
    ensures
        match r {
            Some(n) => find_in_tree(node_views(nodes@), target_slug@) == Some(node_view(*n)),
            None => find_in_tree(node_views(nodes@), target_slug@) is None,
        },
    decreases nodes@,
{
    let ghost views = node_views(nodes@);
    let mut i: usize = 0;
    proof {
        assert(views.skip(0) =~= views);
    }
    while i < nodes.len()
        invariant
            views == node_views(nodes@),
            i <= nodes.len(),
            views.len() == nodes.len(),
            find_in_tree(views, target_slug@) == find_in_tree(
                views.skip(i as int),
                target_slug@,
            ),
        decreases nodes@.len() - i,
    {
        proof {
            let sv = views.skip(i as int);
            assert(sv[0] == views[i as int]);
            assert(views[i as int] == node_view(nodes@[i as int]));
            assert(sv.drop_first() =~= views.skip(i + 1));
        }
        if crate::text::str_eq(nodes[i].slug.as_str(), target_slug) {
            return Some(&nodes[i]);
        }
        proof {
            assert(decreases_to!(nodes@ => nodes@[i as int]));
            assert(decreases_to!(nodes@[i as int] => nodes@[i as int].children));
            assert(decreases_to!(nodes@[i as int].children => nodes@[i as int].children@));
            assert(node_view(nodes@[i as int]).children =~= node_views(
                nodes@[i as int].children@,
            ));
        }
        match find_rule_in_tree(&nodes[i].children, target_slug) {
            Some(found) => {
                return Some(found);
            },
            None => {},
        }
        i = i + 1;
    }
    proof {
        assert(views.skip(nodes.len() as int) =~= Seq::<RuleNodeV>::empty());
    }
    None
}

/// The level of the tree under one parent, built from the flat rows in
/// their storage order; `fuel` bounds the depth so that malformed,
/// cyclic parent links cannot recurse forever.
pub open spec fn built_forest(
    pairs: Seq<(RuleV, RuleContentV)>,
    parent: Option<Seq<char>>,
    fuel: nat,
    upto: nat,
) -> Seq<RuleNodeV>
    decreases fuel, upto,
{
    if upto == 0 || upto > pairs.len() {
        Seq::empty()
    } else {
        let rest = built_forest(pairs, parent, fuel, (upto - 1) as nat);
        let rule = pairs[upto - 1].0;
        let content = pairs[upto - 1].1;
        if rule.parent_rule_id == parent {
            rest.push(
                RuleNodeV {
                    number: rule.number,
                    slug: rule.slug,
                    content: content.content_markdown,
                    children: if fuel == 0 {
                        Seq::empty()
                    } else {
                        built_forest(pairs, Some(rule.id), (fuel - 1) as nat, pairs.len())
                    },
                },
            )
        } else {
            rest
        }
    }
}

/// Builds the level of the tree under one parent.
fn build_children(
    pairs: &Vec<(Rule, RuleContent)>,
    parent: Option<&String>,
    fuel: usize,
) -> (r: Vec<RuleNode>)
    ensures
        node_views(r@) == built_forest(
            pairs.deep_view(),
            match parent {
                Some(s) => Some(s@),
                None => None,
            },
            fuel as nat,
            pairs.deep_view().len(),
        ),
    decreases fuel,
{
    let ghost pv = pairs.deep_view();
    let ghost parentv: Option<Seq<char>> = match parent {
        Some(s) => Some(s@),
        None => None,
    };
    let mut out: Vec<RuleNode> = Vec::new();
    let mut i: usize = 0;
    proof {
        assert(node_views(out@) =~= built_forest(pv, parentv, fuel as nat, 0));
    }
    while i < pairs.len()
        invariant
            pv == pairs.deep_view(),
            parentv == (match parent {
                Some(s) => Some(s@),
                None => None,
            }),
            i <= pairs.len(),
            pv.len() == pairs.len(),
            node_views(out@) == built_forest(pv, parentv, fuel as nat, i as nat),
        decreases pairs@.len() - i,
    {
        proof {
            assert(pv[i as int] == pairs[i as int].deep_view());
            assert(pairs[i as int].deep_view() == (
                pairs[i as int].0.deep_view(),
                pairs[i as int].1.deep_view(),
            ));
        }
        let rule = &pairs[i].0;
        let content = &pairs[i].1;
        let matches = match (parent, &rule.parent_rule_id) {
            (None, None) => true,
            (Some(p), Some(q)) => crate::text::str_eq(p.as_str(), q.as_str()),
            _ => false,
        };
        if matches {
            let children = if fuel > 0 {
                build_children(pairs, Some(&rule.id), fuel - 1)
            } else {
                Vec::new()
            };
            let node = RuleNode {
                number: rule.number.clone(),
                slug: rule.slug.clone(),
                content: content.content_markdown.clone(),
                children,
            };
            proof {
                if fuel > 0 {
                    assert(node_view(node).children =~= built_forest(
                        pv,
                        Some(pv[i as int].0.id),
                        (fuel - 1) as nat,
                        pv.len(),
                    ));
                } else {
                    assert(node_view(node).children =~= Seq::<RuleNodeV>::empty());
                }
            }
            let ghost out_pre = node_views(out@);
            out.push(node);
            proof {
                assert(node_views(out@) =~= out_pre.push(node_view(node)));
                assert(node_views(out@) =~= built_forest(pv, parentv, fuel as nat, (i + 1) as nat));
            }
        } else {
            proof {
                assert(node_views(out@) =~= built_forest(pv, parentv, fuel as nat, (i + 1) as nat));
            }
        }
        i = i + 1;
    }
    out
}

/// Builds the displayed rule tree from flat rows: top-level rules are
/// those without a parent, each node's children are the rows naming it as
/// parent, and every level comes sorted by numeric rule number.
pub fn build_rule_tree(
    rules_with_content: Vec<(Rule, RuleContent)>,
    language: &str,
    rule_set_slug: &str,
) -> (r: Vec<RuleNode>)
    ensures
        node_views(r@) == sort_forest(
            built_forest(
                rules_with_content.deep_view(),
                None,
                rules_with_content.deep_view().len(),
                rules_with_content.deep_view().len(),
            ),
        ),
{
    let _ = language;
    let _ = rule_set_slug;
    let fuel = rules_with_content.len();
    let roots = build_children(&rules_with_content, None, fuel);
    sort_forest_exec(roots)
}


} // verus!
