//! The conversation's scope, and what it leaves of the tag tree.

use crate::outside;
use crate::text;
use vstd::prelude::*;

verus! {

#[derive(Debug, PartialEq)]
pub struct Tag {
    pub id: String,
    pub name: String,
}

/// A tag with the number of atoms under it and the tags below it.
#[derive(Debug, PartialEq)]
pub struct TagWithCount {
    pub tag: Tag,
    pub atom_count: i32,
    pub children_total: i32,
    pub children: Vec<TagWithCount>,
}

/// What a tag is.
pub struct TagTree {
    pub id: Seq<char>,
    pub name: Seq<char>,
    pub atom_count: i32,
    pub children_total: i32,
    pub children: Seq<TagTree>,
}

impl View for TagWithCount {
    type V = TagTree;

    open spec fn view(&self) -> TagTree {
        tree_of(*self)
    }
}

/// What a tag is.
pub open spec fn tree_of(node: TagWithCount) -> TagTree
    decreases node,
{
    TagTree {
        id: node.tag.id@,
        name: node.tag.name@,
        atom_count: node.atom_count,
        children_total: node.children_total,
        children: trees_of(node.children@),
    }
}

/// What a list of tags is.
pub open spec fn trees_of(nodes: Seq<TagWithCount>) -> Seq<TagTree>
    decreases nodes,
{
    if nodes.len() == 0 {
        Seq::empty()
    } else {
        seq![tree_of(nodes[0])] + trees_of(nodes.skip(1))
    }
}

/// The tags of a list one by one.
pub proof fn lemma_trees_of(nodes: Seq<TagWithCount>)
    ensures
        trees_of(nodes).len() == nodes.len(),
        forall|i: int| 0 <= i < nodes.len() ==> #[trigger] trees_of(nodes)[i] == tree_of(nodes[i]),
    decreases nodes.len(),
{
    if nodes.len() > 0 {
        lemma_trees_of(nodes.skip(1));
        assert forall|i: int| 0 <= i < nodes.len() implies #[trigger] trees_of(nodes)[i] == tree_of(
            nodes[i],
        ) by {
            if i > 0 {
                assert(trees_of(nodes)[i] == trees_of(nodes.skip(1))[i - 1]);
                assert(nodes.skip(1)[i - 1] == nodes[i]);
            }
        }
    }
}

impl Clone for TagWithCount {
    fn clone(&self) -> (copy: Self)
        ensures
            copy@ == self@,
        decreases self,
    {
        let mut children: Vec<TagWithCount> = Vec::new();
        let mut at: usize = 0;
        while at < self.children.len()
            invariant
                at <= self.children.len(),
                children@.len() == at,
                forall|i: int|
                    0 <= i < at ==> tree_of(#[trigger] children@[i]) == tree_of(self.children@[i]),
            decreases self.children.len() - at,
        {
            assert(decreases_to!(*self => self.children));
            assert(decreases_to!(self.children => self.children@));
            assert(decreases_to!(self.children@ => self.children@[at as int]));
            let child = self.children[at].clone();
            children.push(child);
            at = at + 1;
        }
        proof {
            lemma_trees_of(children@);
            lemma_trees_of(self.children@);
            assert(trees_of(children@) =~= trees_of(self.children@));
        }
        TagWithCount {
            tag: Tag { id: self.tag.id.clone(), name: self.tag.name.clone() },
            atom_count: self.atom_count,
            children_total: self.children_total,
            children,
        }
    }
}

/// Copies a list of tags.
pub fn copy_tags(nodes: &Vec<TagWithCount>) -> (copy: Vec<TagWithCount>)
    ensures
        trees_of(copy@) == trees_of(nodes@),
{
    let mut copy: Vec<TagWithCount> = Vec::new();
    let mut at: usize = 0;
    while at < nodes.len()
        invariant
            at <= nodes.len(),
            copy@.len() == at,
            forall|i: int| 0 <= i < at ==> tree_of(#[trigger] copy@[i]) == tree_of(nodes@[i]),
        decreases nodes.len() - at,
    {
        copy.push(nodes[at].clone());
        at = at + 1;
    }
    proof {
        lemma_trees_of(copy@);
        lemma_trees_of(nodes@);
        assert(trees_of(copy@) =~= trees_of(nodes@));
    }
    copy
}

/// A conversation's scope: an atom is in scope when at least one of `included`
/// covers it, or `included` is empty; all of `required` cover it; and none of
/// `excluded` does. A tag covers what carries it or a tag below it.
#[derive(Debug, PartialEq)]
pub struct ScopeFilter {
    pub included: Vec<String>,
    pub required: Vec<String>,
    pub excluded: Vec<String>,
}

/// Whether one of `list` covers.
pub open spec fn covers(list: Seq<String>, covering: Set<Seq<char>>) -> bool {
    exists|i: int| 0 <= i < list.len() && covering.contains(#[trigger] list[i]@)
}

impl ScopeFilter {
    /// Whether the scope restricts nothing.
    pub open spec fn open(&self) -> bool {
        self.included@.len() == 0 && self.required@.len() == 0 && self.excluded@.len() == 0
    }

    /// Whether the scope admits what the tags of `covering` cover.
    pub open spec fn admits(&self, covering: Set<Seq<char>>) -> bool {
        &&& self.included@.len() == 0 || covers(self.included@, covering)
        &&& forall|i: int|
            0 <= i < self.required@.len() ==> covering.contains(#[trigger] self.required@[i]@)
        &&& !covers(self.excluded@, covering)
    }

    /// The tags that the scope speaks of.
    pub open spec fn root_set(&self) -> Set<Seq<char>> {
        text::texts(self.included@).to_set() + text::texts(self.required@).to_set() + text::texts(
            self.excluded@,
        ).to_set()
    }

    pub fn is_empty(&self) -> (yes: bool)
        ensures
            yes == self.open(),
    {
        self.included.len() == 0 && self.required.len() == 0 && self.excluded.len() == 0
    }

    /// The atoms of a list that the scope admits, where that can be told
    /// without their tags: an open scope admits all, and of none it admits
    /// none. Otherwise the atoms' tags have to be looked up.
    pub fn admitted_unseen(&self, atom_ids: &Vec<String>) -> (admitted: Option<Vec<String>>)
        ensures
            match admitted {
                Some(admitted) => (self.open() || atom_ids@.len() == 0) && text::texts(admitted@)
                    == text::texts(atom_ids@),
                None => !self.open() && atom_ids@.len() > 0,
            },
    {
        if self.is_empty() || atom_ids.len() == 0 {
            Some(text::copy_texts(atom_ids))
        } else {
            None
        }
    }
}

/// Whether a list of strings holds `needle`.
pub fn holds(list: &Vec<String>, needle: &str) -> (yes: bool)
    ensures
        yes == text::texts(list@).contains(needle@),
        yes == text::texts(list@).to_set().contains(needle@),
{
    let ghost all = text::texts(list@);
    let mut at: usize = 0;
    while at < list.len()
        invariant
            at <= list.len(),
            all == text::texts(list@),
            forall|i: int| 0 <= i < at ==> all[i] != needle@,
        decreases list.len() - at,
    {
        if text::same_text(list[at].as_str(), needle) {
            assert(all[at as int] == needle@);
            return true;
        }
        at = at + 1;
    }
    false
}

fn covers_list(list: &Vec<String>, covering: &Vec<String>) -> (yes: bool)
    ensures
        yes == covers(list@, text::texts(covering@).to_set()),
{
    let ghost set = text::texts(covering@).to_set();
    let mut at: usize = 0;
    while at < list.len()
        invariant
            at <= list.len(),
            set == text::texts(covering@).to_set(),
            forall|i: int| 0 <= i < at ==> !set.contains(#[trigger] list@[i]@),
        decreases list.len() - at,
    {
        if holds(covering, list[at].as_str()) {
            assert(set.contains(list@[at as int]@));
            return true;
        }
        at = at + 1;
    }
    false
}

impl ScopeFilter {
    /// Whether the scope admits what the tags of `covering` cover.
    pub fn admitted(&self, covering: &Vec<String>) -> (yes: bool)
        ensures
            yes == self.admits(text::texts(covering@).to_set()),
    {
        let ghost set = text::texts(covering@).to_set();
        if self.included.len() > 0 && !covers_list(&self.included, covering) {
            return false;
        }
        let mut at: usize = 0;
        while at < self.required.len()
            invariant
                at <= self.required.len(),
                set == text::texts(covering@).to_set(),
                forall|i: int| 0 <= i < at ==> set.contains(#[trigger] self.required@[i]@),
            decreases self.required.len() - at,
        {
            if !holds(covering, self.required[at].as_str()) {
                assert(!set.contains(self.required@[at as int]@));
                return false;
            }
            at = at + 1;
        }
        !covers_list(&self.excluded, covering)
    }

    fn is_root(&self, id: &str) -> (yes: bool)
        ensures
            yes == self.root_set().contains(id@),
    {
        holds(&self.included, id) || holds(&self.required, id) || holds(&self.excluded, id)
    }
}

/// The tags of a tree, in the order of the tree, each with the tags of `roots`
/// that cover it: itself or one above it. `inherited` are those that cover the
/// whole list.
pub open spec fn coverage(
    nodes: Seq<TagTree>,
    inherited: Set<Seq<char>>,
    roots: Set<Seq<char>>,
) -> Seq<(Seq<char>, Set<Seq<char>>)>
    decreases nodes,
{
    if nodes.len() == 0 {
        Seq::empty()
    } else {
        let node = nodes[0];
        let mine = if roots.contains(node.id) {
            inherited.insert(node.id)
        } else {
            inherited
        };
        seq![(node.id, mine)] + coverage(node.children, mine, roots) + coverage(
            nodes.skip(1),
            inherited,
            roots,
        )
    }
}

/// The tags above those of `wanted`. `path` are those above the whole list.
pub open spec fn above(nodes: Seq<TagTree>, path: Set<Seq<char>>, wanted: Set<Seq<char>>) -> Set<
    Seq<char>,
>
    decreases nodes,
{
    if nodes.len() == 0 {
        Set::empty()
    } else {
        let node = nodes[0];
        let here = if wanted.contains(node.id) {
            path
        } else {
            Set::empty()
        };
        here + above(node.children, path.insert(node.id), wanted) + above(
            nodes.skip(1),
            path,
            wanted,
        )
    }
}

/// What covers the tag `id`. Where a tree names a tag twice, the later counts.
pub open spec fn covering_of(
    entries: Seq<(Seq<char>, Set<Seq<char>>)>,
    id: Seq<char>,
) -> Option<Set<Seq<char>>>
    decreases entries.len(),
{
    if entries.len() == 0 {
        None
    } else if entries.last().0 == id {
        Some(entries.last().1)
    } else {
        covering_of(entries.drop_last(), id)
    }
}

/// The tags of a tree with what covers them.
pub open spec fn tree_coverage(tree: Seq<TagTree>, scope: ScopeFilter) -> Seq<
    (Seq<char>, Set<Seq<char>>),
> {
    coverage(tree, Set::empty(), scope.root_set())
}

/// Whether the scope lets the content of a tag, its article, be read.
pub open spec fn may_read(tree: Seq<TagTree>, scope: ScopeFilter, id: Seq<char>) -> bool {
    scope.open() || match covering_of(tree_coverage(tree, scope), id) {
        Some(covering) => scope.admits(covering),
        None => false,
    }
}

/// Whether the scope lets a tag be named. What is excluded is hidden; where
/// something is included, only that is named, and what stands above it.
pub open spec fn may_list(tree: Seq<TagTree>, scope: ScopeFilter, id: Seq<char>) -> bool {
    scope.open() || match covering_of(tree_coverage(tree, scope), id) {
        Some(covering) => !covers(scope.excluded@, covering) && (scope.included@.len() == 0
            || covers(scope.included@, covering) || above(
            tree,
            Set::empty(),
            text::texts(scope.included@).to_set(),
        ).contains(id)),
        None => false,
    }
}

/// A tree without the tags that may not be named, nor what is below them. The
/// number of tags below a tag is counted anew.
pub open spec fn pruned(nodes: Seq<TagTree>, tree: Seq<TagTree>, scope: ScopeFilter) -> Seq<TagTree>
    decreases nodes,
{
    if nodes.len() == 0 {
        Seq::empty()
    } else {
        let node = nodes[0];
        let rest = pruned(nodes.skip(1), tree, scope);
        if may_list(tree, scope, node.id) {
            let children = pruned(node.children, tree, scope);
            seq![TagTree { children_total: children.len() as i32, children, ..node }] + rest
        } else {
            rest
        }
    }
}

/// The tree that a conversation gets to see.
pub open spec fn visible(tree: Seq<TagTree>, scope: ScopeFilter) -> Seq<TagTree> {
    if scope.open() {
        tree
    } else {
        pruned(tree, tree, scope)
    }
}

struct Covered {
    id: String,
    roots: Vec<String>,
}

spec fn entries(list: Seq<Covered>) -> Seq<(Seq<char>, Set<Seq<char>>)> {
    Seq::new(list.len(), |i: int| (list[i].id@, text::texts(list[i].roots@).to_set()))
}

/// A scope as it applies to the tags of one tree.
pub struct TagScope<'a> {
    scope: &'a ScopeFilter,
    covered: Vec<Covered>,
    above: Vec<String>,
}

proof fn lemma_push_set(list: Seq<String>, item: String)
    ensures
        text::texts(list.push(item)).to_set() == text::texts(list).to_set().insert(item@),
{
    let before = text::texts(list);
    let after = text::texts(list.push(item));
    assert(after =~= before.push(item@));
    assert forall|x: Seq<char>| after.to_set().contains(x) == before.to_set().insert(
        item@,
    ).contains(x) by {
        if before.contains(x) {
            let i = choose|i: int| 0 <= i < before.len() && before[i] == x;
            assert(after[i] == x);
        }
        assert(after[before.len() as int] == item@);
    }
    assert(after.to_set() =~= before.to_set().insert(item@));
}

fn append_list(list: &mut Vec<String>, more: &Vec<String>)
    ensures
        text::texts(final(list)@).to_set() == text::texts(old(list)@).to_set() + text::texts(
            more@,
        ).to_set(),
{
    let ghost start = text::texts(list@).to_set();
    let ghost all = text::texts(more@);
    let mut at: usize = 0;
    assert(start + all.take(0).to_set() =~= start);
    while at < more.len()
        invariant
            at <= more.len(),
            all == text::texts(more@),
            text::texts(list@).to_set() == start + all.take(at as int).to_set(),
        decreases more.len() - at,
    {
        let item = more[at].clone();
        let ghost before = list@;
        list.push(item);
        proof {
            lemma_push_set(before, item);
            let grown = all.take(at + 1);
            assert(grown =~= all.take(at as int).push(all[at as int]));
            assert forall|x: Seq<char>| grown.to_set().contains(x) == all.take(
                at as int,
            ).to_set().insert(item@).contains(x) by {
                if all.take(at as int).contains(x) {
                    let i = choose|i: int| 0 <= i < at && all.take(at as int)[i] == x;
                    assert(grown[i] == x);
                }
                assert(grown[at as int] == item@);
            }
            assert(text::texts(list@).to_set() =~= start + grown.to_set());
        }
        at = at + 1;
    }
    assert(all.take(at as int) =~= all);
}

fn walk(
    nodes: &Vec<TagWithCount>,
    inherited: &Vec<String>,
    path: &Vec<String>,
    scope: &ScopeFilter,
    covered: &mut Vec<Covered>,
    over: &mut Vec<String>,
)
    ensures
        entries(final(covered)@) == entries(old(covered)@) + coverage(
            trees_of(nodes@),
            text::texts(inherited@).to_set(),
            scope.root_set(),
        ),
        text::texts(final(over)@).to_set() == text::texts(old(over)@).to_set() + above(
            trees_of(nodes@),
            text::texts(path@).to_set(),
            text::texts(scope.included@).to_set(),
        ),
    decreases nodes,
{
    let ghost all = trees_of(nodes@);
    let ghost down = text::texts(inherited@).to_set();
    let ghost up = text::texts(path@).to_set();
    let ghost roots = scope.root_set();
    let ghost wanted = text::texts(scope.included@).to_set();
    let ghost start = entries(covered@);
    let ghost start_over = text::texts(over@).to_set();
    let mut at: usize = 0;
    proof {
        lemma_trees_of(nodes@);
        assert(all.skip(0) =~= all);
    }
    while at < nodes.len()
        invariant
            at <= nodes.len(),
            all == trees_of(nodes@),
            all.len() == nodes@.len(),
            forall|i: int| 0 <= i < all.len() ==> #[trigger] all[i] == tree_of(nodes@[i]),
            down == text::texts(inherited@).to_set(),
            up == text::texts(path@).to_set(),
            roots == scope.root_set(),
            wanted == text::texts(scope.included@).to_set(),
            entries(covered@) + coverage(all.skip(at as int), down, roots) == start + coverage(
                all,
                down,
                roots,
            ),
            text::texts(over@).to_set() + above(all.skip(at as int), up, wanted) == start_over
                + above(all, up, wanted),
        decreases nodes.len() - at,
    {
        let node = &nodes[at];
        let ghost rest = all.skip(at as int);
        proof {
            assert(rest[0] == all[at as int]);
            assert(rest.skip(1) =~= all.skip(at + 1));
        }
        let id = node.tag.id.as_str();
        let mut mine = text::copy_texts(inherited);
        if scope.is_root(id) {
            let ghost before = mine@;
            mine.push(id.to_owned());
            proof {
                lemma_push_set(before, mine@.last());
                assert(before.push(mine@.last()) =~= mine@);
            }
        }
        let ghost below = text::texts(mine@).to_set();
        let ghost over_before = text::texts(over@).to_set();
        if holds(&scope.included, id) {
            append_list(over, path);
        }
        let ghost over_here = text::texts(over@).to_set();
        let ghost covered_before = covered@;
        covered.push(Covered { id: id.to_owned(), roots: text::copy_texts(&mine) });
        assert(entries(covered@) =~= entries(covered_before).push((id@, below)));
        let mut child_path = text::copy_texts(path);
        let ghost path_before = child_path@;
        child_path.push(id.to_owned());
        proof {
            lemma_push_set(path_before, child_path@.last());
            assert(path_before.push(child_path@.last()) =~= child_path@);
            assert(decreases_to!(*nodes => nodes@));
            assert(decreases_to!(nodes@ => nodes@[at as int]));
            assert(decreases_to!(nodes@[at as int] => nodes@[at as int].children));
        }
        walk(&node.children, &mine, &child_path, scope, covered, over);
        proof {
            let kids = trees_of(node.children@);
            assert(rest[0].children == kids);
            assert(coverage(rest, down, roots) == seq![(id@, below)] + coverage(kids, below, roots)
                + coverage(all.skip(at + 1), down, roots));
            assert(entries(covered@) + coverage(all.skip(at + 1), down, roots) =~= entries(
                covered_before,
            ) + coverage(rest, down, roots));
            assert(text::texts(over@).to_set() + above(all.skip(at + 1), up, wanted)
                =~= over_before + above(rest, up, wanted));
        }
        at = at + 1;
    }
    proof {
        assert(all.skip(at as int).len() == 0);
        assert(entries(covered@) + coverage(all.skip(at as int), down, roots) =~= entries(covered@));
        assert(text::texts(over@).to_set() + above(all.skip(at as int), up, wanted)
            =~= text::texts(over@).to_set());
    }
}

impl<'a> TagScope<'a> {
    /// The scope.
    pub closed spec fn filter(&self) -> ScopeFilter {
        *self.scope
    }

    /// Whether this is how the scope applies to `tree`.
    pub closed spec fn applies_to(&self, tree: Seq<TagTree>) -> bool {
        self.scope.open() || (entries(self.covered@) == tree_coverage(tree, *self.scope)
            && text::texts(self.above@).to_set() == above(
            tree,
            Set::empty(),
            text::texts(self.scope.included@).to_set(),
        ))
    }

    /// Applies a scope to the tags of a tree.
    pub fn resolve(tree: &Vec<TagWithCount>, scope: &'a ScopeFilter) -> (tags: TagScope<'a>)
        ensures
            tags.filter() == *scope,
            tags.applies_to(trees_of(tree@)),
    {
        let mut covered: Vec<Covered> = Vec::new();
        let mut over: Vec<String> = Vec::new();
        if !scope.is_empty() {
            let none: Vec<String> = Vec::new();
            proof {
                assert(text::texts(none@) =~= Seq::empty());
                assert(text::texts(none@).to_set() =~= Set::empty());
                assert(entries(covered@) =~= Seq::empty());
                assert(text::texts(over@) =~= Seq::empty());
            }
            walk(tree, &none, &none, scope, &mut covered, &mut over);
            proof {
                assert(entries(covered@) =~= tree_coverage(trees_of(tree@), *scope));
                assert(text::texts(over@).to_set() =~= above(
                    trees_of(tree@),
                    Set::empty(),
                    text::texts(scope.included@).to_set(),
                ));
            }
        }
        TagScope { scope, covered, above: over }
    }

    fn find(&self, id: &str) -> (found: Option<usize>)
        ensures
            match found {
                Some(at) => at < self.covered@.len() && covering_of(entries(self.covered@), id@)
                    == Some(text::texts(self.covered@[at as int].roots@).to_set()),
                None => covering_of(entries(self.covered@), id@) is None,
            },
    {
        let ghost all = entries(self.covered@);
        let mut at: usize = self.covered.len();
        assert(all.take(all.len() as int) =~= all);
        while at > 0
            invariant
                at <= self.covered.len(),
                all == entries(self.covered@),
                covering_of(all, id@) == covering_of(all.take(at as int), id@),
            decreases at,
        {
            at = at - 1;
            proof {
                assert(all.take(at + 1).last() == all[at as int]);
                assert(all.take(at + 1).drop_last() =~= all.take(at as int));
            }
            if text::same_text(self.covered[at].id.as_str(), id) {
                return Some(at);
            }
        }
        None
    }

    /// Whether the content of a tag may be read.
    pub fn readable(&self, tag_id: &str) -> (yes: bool)
        ensures
            forall|tree: Seq<TagTree>|
                self.applies_to(tree) ==> yes == #[trigger] may_read(tree, self.filter(), tag_id@),
    {
        if self.scope.is_empty() {
            return true;
        }
        match self.find(tag_id) {
            Some(at) => self.scope.admitted(&self.covered[at].roots),
            None => false,
        }
    }

    /// Whether a tag may be named.
    pub fn listable(&self, tag_id: &str) -> (yes: bool)
        ensures
            forall|tree: Seq<TagTree>|
                self.applies_to(tree) ==> yes == #[trigger] may_list(tree, self.filter(), tag_id@),
    {
        if self.scope.is_empty() {
            return true;
        }
        match self.find(tag_id) {
            Some(at) => !covers_list(&self.scope.excluded, &self.covered[at].roots) && (
            self.scope.included.len() == 0 || covers_list(
                &self.scope.included,
                &self.covered[at].roots,
            ) || holds(&self.above, tag_id)),
            None => false,
        }
    }

    fn prune_nodes(&self, nodes: &Vec<TagWithCount>) -> (kept: Vec<TagWithCount>)
        ensures
            forall|tree: Seq<TagTree>|
                self.applies_to(tree) ==> trees_of(kept@) == #[trigger] pruned(
                    trees_of(nodes@),
                    tree,
                    self.filter(),
                ),
        decreases nodes,
    {
        let ghost all = trees_of(nodes@);
        let ghost filter = self.filter();
        let mut kept: Vec<TagWithCount> = Vec::new();
        let mut at: usize = 0;
        proof {
            lemma_trees_of(nodes@);
            assert(all.skip(0) =~= all);
            assert forall|tree: Seq<TagTree>| self.applies_to(tree) implies trees_of(kept@)
                + pruned(all.skip(0), tree, filter) == #[trigger] pruned(all, tree, filter) by {
                assert(trees_of(kept@) + pruned(all, tree, filter) =~= pruned(all, tree, filter));
            }
        }
        while at < nodes.len()
            invariant
                at <= nodes.len(),
                filter == self.filter(),
                all == trees_of(nodes@),
                all.len() == nodes@.len(),
                forall|i: int| 0 <= i < all.len() ==> #[trigger] all[i] == tree_of(nodes@[i]),
                forall|tree: Seq<TagTree>|
                    self.applies_to(tree) ==> trees_of(kept@) + pruned(
                        all.skip(at as int),
                        tree,
                        filter,
                    ) == #[trigger] pruned(all, tree, filter),
            decreases nodes.len() - at,
        {
            let node = &nodes[at];
            let ghost rest = all.skip(at as int);
            let ghost before = kept@;
            proof {
                assert(rest[0] == all[at as int]);
                assert(rest.skip(1) =~= all.skip(at + 1));
            }
            if self.listable(node.tag.id.as_str()) {
                proof {
                    assert(decreases_to!(*nodes => nodes@));
                    assert(decreases_to!(nodes@ => nodes@[at as int]));
                    assert(decreases_to!(nodes@[at as int] => nodes@[at as int].children));
                }
                let children = self.prune_nodes(&node.children);
                proof {
                    lemma_trees_of(children@);
                }
                let copy = TagWithCount {
                    tag: Tag { id: node.tag.id.clone(), name: node.tag.name.clone() },
                    atom_count: node.atom_count,
                    children_total: #[verifier::truncate] (children.len() as i32),
                    children,
                };
                kept.push(copy);
                proof {
                    lemma_trees_push(before, copy);
                    assert(kept@ =~= before.push(copy));
                    assert forall|tree: Seq<TagTree>| self.applies_to(tree) implies trees_of(kept@)
                        + pruned(all.skip(at + 1), tree, filter) == #[trigger] pruned(
                        all,
                        tree,
                        filter,
                    ) by {
                        assert(may_list(tree, filter, rest[0].id));
                        assert(rest[0].children == trees_of(node.children@));
                        assert(trees_of(children@) == pruned(
                            trees_of(node.children@),
                            tree,
                            filter,
                        ));
                        assert(trees_of(kept@) + pruned(all.skip(at + 1), tree, filter)
                            =~= trees_of(before) + pruned(rest, tree, filter));
                    }
                }
            } else {
                proof {
                    assert forall|tree: Seq<TagTree>| self.applies_to(tree) implies trees_of(kept@)
                        + pruned(all.skip(at + 1), tree, filter) == #[trigger] pruned(
                        all,
                        tree,
                        filter,
                    ) by {
                        assert(!may_list(tree, filter, rest[0].id));
                    }
                }
            }
            at = at + 1;
        }
        proof {
            assert forall|tree: Seq<TagTree>| self.applies_to(tree) implies trees_of(kept@)
                == #[trigger] pruned(all, tree, filter) by {
                assert(trees_of(kept@) + pruned(all.skip(at as int), tree, filter) =~= trees_of(
                    kept@,
                ));
            }
        }
        kept
    }

    /// A list of tags without those that may not be named, nor what is below
    /// them. The list need not be the tree that the scope was applied to: a
    /// tag that the tree does not hold may not be named.
    pub fn prune(&self, nodes: &Vec<TagWithCount>) -> (kept: Vec<TagWithCount>)
        ensures
            self.filter().open() ==> trees_of(kept@) == trees_of(nodes@),
            !self.filter().open() ==> forall|tree: Seq<TagTree>|
                self.applies_to(tree) ==> trees_of(kept@) == #[trigger] pruned(
                    trees_of(nodes@),
                    tree,
                    self.filter(),
                ),
    {
        if self.scope.is_empty() {
            copy_tags(nodes)
        } else {
            self.prune_nodes(nodes)
        }
    }
}

proof fn lemma_trees_push(nodes: Seq<TagWithCount>, node: TagWithCount)
    ensures
        trees_of(nodes.push(node)) == trees_of(nodes).push(tree_of(node)),
{
    lemma_trees_of(nodes);
    lemma_trees_of(nodes.push(node));
    assert(trees_of(nodes.push(node)) =~= trees_of(nodes).push(tree_of(node)));
}

// ==================== What holds of every scope ====================

/// The ids of the tags of a tree, in the order of the tree.
pub open spec fn ids_of(nodes: Seq<TagTree>) -> Seq<Seq<char>>
    decreases nodes,
{
    if nodes.len() == 0 {
        Seq::empty()
    } else {
        seq![nodes[0].id] + ids_of(nodes[0].children) + ids_of(nodes.skip(1))
    }
}

/// Whether the tag `id` is the tag `top` or stands below it.
pub open spec fn stands_under(nodes: Seq<TagTree>, top: Seq<char>, id: Seq<char>) -> bool
    decreases nodes,
{
    nodes.len() > 0 && {
        ||| nodes[0].id == top && (nodes[0].id == id || ids_of(nodes[0].children).contains(id))
        ||| stands_under(nodes[0].children, top, id)
        ||| stands_under(nodes.skip(1), top, id)
    }
}

/// A tag whose content may be read may be named.
pub proof fn lemma_readable_is_listable(tree: Seq<TagTree>, scope: ScopeFilter, id: Seq<char>)
    requires
        may_read(tree, scope, id),
    ensures
        may_list(tree, scope, id),
{
}

/// Pruning what has been pruned changes nothing.
pub proof fn lemma_pruning_twice_is_pruning_once(
    nodes: Seq<TagTree>,
    tree: Seq<TagTree>,
    scope: ScopeFilter,
)
    ensures
        pruned(pruned(nodes, tree, scope), tree, scope) == pruned(nodes, tree, scope),
    decreases nodes,
{
    if nodes.len() > 0 {
        let node = nodes[0];
        let rest = pruned(nodes.skip(1), tree, scope);
        lemma_pruning_twice_is_pruning_once(nodes.skip(1), tree, scope);
        if may_list(tree, scope, node.id) {
            lemma_pruning_twice_is_pruning_once(node.children, tree, scope);
            let once = pruned(nodes, tree, scope);
            assert(once.skip(1) =~= rest);
            assert(once[0].children == pruned(node.children, tree, scope));
            assert(pruned(once, tree, scope) =~= once);
        }
    }
}

/// Every tag in the tree that a conversation gets to see is one that may be
/// named.
pub proof fn lemma_visible_tags_may_be_named(
    nodes: Seq<TagTree>,
    tree: Seq<TagTree>,
    scope: ScopeFilter,
)
    ensures
        forall|i: int|
            0 <= i < ids_of(pruned(nodes, tree, scope)).len() ==> may_list(
                tree,
                scope,
                #[trigger] ids_of(pruned(nodes, tree, scope))[i],
            ),
    decreases nodes,
{
    if nodes.len() > 0 {
        let node = nodes[0];
        lemma_visible_tags_may_be_named(nodes.skip(1), tree, scope);
        let rest = pruned(nodes.skip(1), tree, scope);
        if may_list(tree, scope, node.id) {
            lemma_visible_tags_may_be_named(node.children, tree, scope);
            let children = pruned(node.children, tree, scope);
            let all = pruned(nodes, tree, scope);
            assert(all.skip(1) =~= rest);
            assert(all[0].children == children);
            let ids = ids_of(all);
            assert(ids == seq![node.id] + ids_of(children) + ids_of(rest));
            assert forall|i: int| 0 <= i < ids.len() implies may_list(
                tree,
                scope,
                #[trigger] ids[i],
            ) by {
                let n = ids_of(children).len();
                if 0 < i <= n {
                    assert(ids[i] == ids_of(children)[i - 1]);
                } else if i > n {
                    assert(ids[i] == ids_of(rest)[i - 1 - n]);
                }
            }
        }
    }
}

proof fn lemma_coverage_ids(
    nodes: Seq<TagTree>,
    inherited: Set<Seq<char>>,
    roots: Set<Seq<char>>,
)
    ensures
        coverage(nodes, inherited, roots).len() == ids_of(nodes).len(),
        forall|k: int|
            0 <= k < ids_of(nodes).len() ==> (#[trigger] coverage(nodes, inherited, roots)[k]).0
                == ids_of(nodes)[k],
        forall|k: int, x: Seq<char>|
            0 <= k < ids_of(nodes).len() && inherited.contains(x) ==> #[trigger] coverage(
                nodes,
                inherited,
                roots,
            )[k].1.contains(x),
    decreases nodes,
{
    if nodes.len() > 0 {
        let node = nodes[0];
        let mine = if roots.contains(node.id) {
            inherited.insert(node.id)
        } else {
            inherited
        };
        lemma_coverage_ids(node.children, mine, roots);
        lemma_coverage_ids(nodes.skip(1), inherited, roots);
        let all = coverage(nodes, inherited, roots);
        let kids = coverage(node.children, mine, roots);
        let rest = coverage(nodes.skip(1), inherited, roots);
        assert(all == seq![(node.id, mine)] + kids + rest);
        let n = kids.len() as int;
        assert forall|k: int| 0 <= k < all.len() implies (#[trigger] all[k]).0 == ids_of(
            nodes,
        )[k] by {
            if 0 < k <= n {
                assert(all[k] == kids[k - 1]);
                assert(ids_of(nodes)[k] == ids_of(node.children)[k - 1]);
            } else if k > n {
                assert(all[k] == rest[k - 1 - n]);
                assert(ids_of(nodes)[k] == ids_of(nodes.skip(1))[k - 1 - n]);
            }
        }
        assert forall|k: int, x: Seq<char>|
            0 <= k < all.len() && inherited.contains(x) implies #[trigger] all[k].1.contains(x) by {
            if 0 < k <= n {
                assert(all[k] == kids[k - 1]);
                assert(mine.contains(x));
            } else if k > n {
                assert(all[k] == rest[k - 1 - n]);
            }
        }
    }
}

proof fn lemma_covered_under(
    nodes: Seq<TagTree>,
    inherited: Set<Seq<char>>,
    roots: Set<Seq<char>>,
    top: Seq<char>,
    id: Seq<char>,
) -> (k: int)
    requires
        stands_under(nodes, top, id),
        roots.contains(top),
    ensures
        0 <= k < coverage(nodes, inherited, roots).len(),
        coverage(nodes, inherited, roots)[k].0 == id,
        coverage(nodes, inherited, roots)[k].1.contains(top),
    decreases nodes,
{
    let node = nodes[0];
    let mine = if roots.contains(node.id) {
        inherited.insert(node.id)
    } else {
        inherited
    };
    let all = coverage(nodes, inherited, roots);
    let kids = coverage(node.children, mine, roots);
    let rest = coverage(nodes.skip(1), inherited, roots);
    assert(all == seq![(node.id, mine)] + kids + rest);
    if node.id == top && node.id == id {
        assert(all[0] == (node.id, mine));
        0
    } else if node.id == top && ids_of(node.children).contains(id) {
        lemma_coverage_ids(node.children, mine, roots);
        let k = choose|k: int| 0 <= k < ids_of(node.children).len() && ids_of(node.children)[k] == id;
        assert(kids[k].0 == id);
        assert(mine.contains(top));
        assert(all[k + 1] == kids[k]);
        k + 1
    } else if stands_under(node.children, top, id) {
        let k = lemma_covered_under(node.children, mine, roots, top, id);
        assert(all[k + 1] == kids[k]);
        k + 1
    } else {
        let k = lemma_covered_under(nodes.skip(1), inherited, roots, top, id);
        assert(all[k + 1 + kids.len()] == rest[k]);
        k + 1 + kids.len()
    }
}

proof fn lemma_covering_is_the_only_one(
    list: Seq<(Seq<char>, Set<Seq<char>>)>,
    id: Seq<char>,
    k: int,
)
    requires
        0 <= k < list.len(),
        list[k].0 == id,
        forall|i: int, j: int|
            0 <= i < j < list.len() ==> (#[trigger] list[i]).0 != (#[trigger] list[j]).0,
    ensures
        covering_of(list, id) == Some(list[k].1),
    decreases list.len(),
{
    if k < list.len() - 1 {
        assert(list[list.len() - 1].0 != id);
        lemma_covering_is_the_only_one(list.drop_last(), id, k);
    }
}

proof fn lemma_coverage_from_above(
    nodes: Seq<TagTree>,
    inherited: Set<Seq<char>>,
    roots: Set<Seq<char>>,
    k: int,
    top: Seq<char>,
)
    requires
        0 <= k < coverage(nodes, inherited, roots).len(),
        coverage(nodes, inherited, roots)[k].1.contains(top),
        !inherited.contains(top),
    ensures
        roots.contains(top),
        stands_under(nodes, top, coverage(nodes, inherited, roots)[k].0),
    decreases nodes,
{
    let node = nodes[0];
    let mine = if roots.contains(node.id) {
        inherited.insert(node.id)
    } else {
        inherited
    };
    let all = coverage(nodes, inherited, roots);
    let kids = coverage(node.children, mine, roots);
    let rest = coverage(nodes.skip(1), inherited, roots);
    assert(all == seq![(node.id, mine)] + kids + rest);
    let n = kids.len() as int;
    if k == 0 {
        assert(all[0] == (node.id, mine));
    } else if k <= n {
        assert(all[k] == kids[k - 1]);
        if mine.contains(top) {
            lemma_coverage_ids(node.children, mine, roots);
            assert(ids_of(node.children)[k - 1] == all[k].0);
        } else {
            lemma_coverage_from_above(node.children, mine, roots, k - 1, top);
        }
    } else {
        assert(all[k] == rest[k - 1 - n]);
        lemma_coverage_from_above(nodes.skip(1), inherited, roots, k - 1 - n, top);
    }
}

proof fn lemma_stranger_has_no_covering(list: Seq<(Seq<char>, Set<Seq<char>>)>, id: Seq<char>)
    requires
        forall|i: int| 0 <= i < list.len() ==> (#[trigger] list[i]).0 != id,
    ensures
        covering_of(list, id) is None,
    decreases list.len(),
{
    if list.len() > 0 {
        lemma_stranger_has_no_covering(list.drop_last(), id);
    }
}

/// The tags that the scope speaks of and under which the tag `id` stands.
pub open spec fn roots_over(tree: Seq<TagTree>, scope: ScopeFilter, id: Seq<char>) -> Set<
    Seq<char>,
> {
    Set::new(|top: Seq<char>| scope.root_set().contains(top) && stands_under(tree, top, id))
}

/// What covers a tag of the tree are the tags of the scope under which it
/// stands, and a tag that is not in the tree has no covering. In the tree no two
/// tags have the same id.
pub proof fn lemma_covering_is_what_stands_over(
    tree: Seq<TagTree>,
    scope: ScopeFilter,
    id: Seq<char>,
)
    requires
        ids_of(tree).no_duplicates(),
    ensures
        covering_of(tree_coverage(tree, scope), id) == if ids_of(tree).contains(id) {
            Some(roots_over(tree, scope, id))
        } else {
            None
        },
{
    let roots = scope.root_set();
    let none = Set::<Seq<char>>::empty();
    let list = tree_coverage(tree, scope);
    lemma_coverage_ids(tree, none, roots);
    assert forall|a: int, b: int| 0 <= a < b < list.len() implies (#[trigger] list[a]).0 != (
    #[trigger] list[b]).0 by {
        assert(ids_of(tree)[a] != ids_of(tree)[b]);
    }
    if ids_of(tree).contains(id) {
        let k = choose|k: int| 0 <= k < ids_of(tree).len() && ids_of(tree)[k] == id;
        assert(list[k].0 == id);
        lemma_covering_is_the_only_one(list, id, k);
        assert forall|top: Seq<char>| list[k].1.contains(top) == #[trigger] roots_over(
            tree,
            scope,
            id,
        ).contains(top) by {
            if list[k].1.contains(top) {
                lemma_coverage_from_above(tree, none, roots, k, top);
            }
            if roots.contains(top) && stands_under(tree, top, id) {
                let j = lemma_covered_under(tree, none, roots, top, id);
                if j != k {
                    assert(list[j].0 != list[k].0);
                }
            }
        }
        assert(list[k].1 =~= roots_over(tree, scope, id));
    } else {
        assert forall|i: int| 0 <= i < list.len() implies (#[trigger] list[i]).0 != id by {
            assert(ids_of(tree)[i] == list[i].0);
        }
        lemma_stranger_has_no_covering(list, id);
    }
}

/// Whether the tag `id` stands under one of `list`.
pub open spec fn under_one_of(tree: Seq<TagTree>, list: Seq<String>, id: Seq<char>) -> bool {
    exists|i: int| 0 <= i < list.len() && stands_under(tree, #[trigger] list[i]@, id)
}

/// Whether one of `list` stands under the tag `id`.
pub open spec fn over_one_of(tree: Seq<TagTree>, list: Seq<String>, id: Seq<char>) -> bool {
    exists|i: int| 0 <= i < list.len() && stands_under(tree, id, #[trigger] list[i]@)
}

proof fn lemma_list_covers(tree: Seq<TagTree>, scope: ScopeFilter, list: Seq<String>, id: Seq<char>)
    requires
        list == scope.included@ || list == scope.required@ || list == scope.excluded@,
    ensures
        covers(list, roots_over(tree, scope, id)) == under_one_of(tree, list, id),
        forall|i: int|
            0 <= i < list.len() ==> roots_over(tree, scope, id).contains(#[trigger] list[i]@)
                == stands_under(tree, list[i]@, id),
{
    assert forall|i: int| 0 <= i < list.len() implies scope.root_set().contains(
        #[trigger] list[i]@,
    ) by {
        assert(text::texts(list)[i] == list[i]@);
    }
    if under_one_of(tree, list, id) {
        let i = choose|i: int|
            0 <= i < list.len() && stands_under(tree, #[trigger] list[i]@, id);
        assert(roots_over(tree, scope, id).contains(list[i]@));
    }
}

/// Where a scope restricts something, the content of a tag may be read exactly
/// where the tag is in the tree, stands under one of the included tags if there
/// are any, under every required tag, and under no excluded one. In the tree no
/// two tags have the same id.
pub proof fn lemma_reading_goes_by_what_stands_over(
    tree: Seq<TagTree>,
    scope: ScopeFilter,
    id: Seq<char>,
)
    requires
        !scope.open(),
        ids_of(tree).no_duplicates(),
    ensures
        may_read(tree, scope, id) <==> {
            &&& ids_of(tree).contains(id)
            &&& scope.included@.len() == 0 || under_one_of(tree, scope.included@, id)
            &&& forall|i: int|
                0 <= i < scope.required@.len() ==> stands_under(
                    tree,
                    #[trigger] scope.required@[i]@,
                    id,
                )
            &&& !under_one_of(tree, scope.excluded@, id)
        },
{
    lemma_covering_is_what_stands_over(tree, scope, id);
    lemma_list_covers(tree, scope, scope.included@, id);
    lemma_list_covers(tree, scope, scope.required@, id);
    lemma_list_covers(tree, scope, scope.excluded@, id);
}

/// Whether the tag `id` stands below the tag `top`.
spec fn stands_below(nodes: Seq<TagTree>, top: Seq<char>, id: Seq<char>) -> bool
    decreases nodes,
{
    nodes.len() > 0 && {
        ||| nodes[0].id == top && ids_of(nodes[0].children).contains(id)
        ||| stands_below(nodes[0].children, top, id)
        ||| stands_below(nodes.skip(1), top, id)
    }
}

proof fn lemma_below_is_under(nodes: Seq<TagTree>, top: Seq<char>, id: Seq<char>)
    ensures
        stands_below(nodes, top, id) ==> stands_under(nodes, top, id),
        stands_under(nodes, top, id) ==> top == id || stands_below(nodes, top, id),
    decreases nodes,
{
    if nodes.len() > 0 {
        lemma_below_is_under(nodes[0].children, top, id);
        lemma_below_is_under(nodes.skip(1), top, id);
    }
}

proof fn lemma_path_is_above(
    nodes: Seq<TagTree>,
    path: Set<Seq<char>>,
    wanted: Set<Seq<char>>,
    top: Seq<char>,
    id: Seq<char>,
)
    requires
        path.contains(top),
        wanted.contains(id),
        ids_of(nodes).contains(id),
    ensures
        above(nodes, path, wanted).contains(top),
    decreases nodes,
{
    let node = nodes[0];
    let ids = ids_of(nodes);
    let kids = ids_of(node.children);
    let rest = ids_of(nodes.skip(1));
    assert(ids == seq![node.id] + kids + rest);
    let k = choose|k: int| 0 <= k < ids.len() && ids[k] == id;
    if k == 0 {
        assert(node.id == id);
    } else if k <= kids.len() {
        assert(kids[k - 1] == id);
        lemma_path_is_above(node.children, path.insert(node.id), wanted, top, id);
    } else {
        assert(rest[k - 1 - kids.len()] == id);
        lemma_path_is_above(nodes.skip(1), path, wanted, top, id);
    }
}

proof fn lemma_above_what_is_below(
    nodes: Seq<TagTree>,
    path: Set<Seq<char>>,
    wanted: Set<Seq<char>>,
    top: Seq<char>,
    id: Seq<char>,
)
    requires
        wanted.contains(id),
        stands_below(nodes, top, id),
    ensures
        above(nodes, path, wanted).contains(top),
    decreases nodes,
{
    let node = nodes[0];
    if node.id == top && ids_of(node.children).contains(id) {
        lemma_path_is_above(node.children, path.insert(node.id), wanted, top, id);
    } else if stands_below(node.children, top, id) {
        lemma_above_what_is_below(node.children, path.insert(node.id), wanted, top, id);
    } else {
        lemma_above_what_is_below(nodes.skip(1), path, wanted, top, id);
    }
}

proof fn lemma_above_has_one_below(
    nodes: Seq<TagTree>,
    path: Set<Seq<char>>,
    wanted: Set<Seq<char>>,
    top: Seq<char>,
) -> (id: Seq<char>)
    requires
        above(nodes, path, wanted).contains(top),
    ensures
        wanted.contains(id),
        ids_of(nodes).contains(id),
        path.contains(top) || stands_below(nodes, top, id),
    decreases nodes,
{
    let node = nodes[0];
    let ids = ids_of(nodes);
    let kids = ids_of(node.children);
    let rest = ids_of(nodes.skip(1));
    assert(ids == seq![node.id] + kids + rest);
    if wanted.contains(node.id) && path.contains(top) {
        assert(ids[0] == node.id);
        node.id
    } else if above(node.children, path.insert(node.id), wanted).contains(top) {
        let id = lemma_above_has_one_below(node.children, path.insert(node.id), wanted, top);
        let k = choose|k: int| 0 <= k < kids.len() && kids[k] == id;
        assert(ids[k + 1] == id);
        id
    } else {
        let id = lemma_above_has_one_below(nodes.skip(1), path, wanted, top);
        let k = choose|k: int| 0 <= k < rest.len() && rest[k] == id;
        assert(ids[k + 1 + kids.len()] == id);
        id
    }
}

/// Where a scope restricts something, a tag may be named exactly where it is in
/// the tree, stands under no excluded tag, and, if tags are included, stands
/// under one of them or over one of them. In the tree no two tags have the same
/// id.
pub proof fn lemma_naming_goes_by_what_stands_over_and_under(
    tree: Seq<TagTree>,
    scope: ScopeFilter,
    id: Seq<char>,
)
    requires
        !scope.open(),
        ids_of(tree).no_duplicates(),
    ensures
        may_list(tree, scope, id) <==> {
            &&& ids_of(tree).contains(id)
            &&& !under_one_of(tree, scope.excluded@, id)
            &&& scope.included@.len() == 0 || under_one_of(tree, scope.included@, id)
                || over_one_of(tree, scope.included@, id)
        },
{
    let list = scope.included@;
    let none = Set::<Seq<char>>::empty();
    let wanted = text::texts(list).to_set();
    lemma_covering_is_what_stands_over(tree, scope, id);
    lemma_list_covers(tree, scope, list, id);
    lemma_list_covers(tree, scope, scope.excluded@, id);
    if above(tree, none, wanted).contains(id) {
        let one = lemma_above_has_one_below(tree, none, wanted, id);
        let i = choose|i: int| 0 <= i < text::texts(list).len() && text::texts(list)[i] == one;
        assert(list[i]@ == one);
        lemma_below_is_under(tree, id, one);
        assert(over_one_of(tree, list, id));
    }
    if over_one_of(tree, list, id) {
        let i = choose|i: int|
            0 <= i < list.len() && stands_under(tree, id, #[trigger] list[i]@);
        let one = list[i]@;
        assert(text::texts(list)[i] == one);
        lemma_below_is_under(tree, id, one);
        if one == id {
            assert(stands_under(tree, list[i]@, id));
            assert(under_one_of(tree, list, id));
        } else {
            lemma_above_what_is_below(tree, none, wanted, id, one);
        }
    }
}

/// Excluding a tag closes it and everything below it: none of these tags may
/// be read, and none may be named. In the tree no two tags have the same id.
pub proof fn lemma_excluded_branch_is_closed(
    tree: Seq<TagTree>,
    scope: ScopeFilter,
    i: int,
    id: Seq<char>,
)
    requires
        0 <= i < scope.excluded@.len(),
        stands_under(tree, scope.excluded@[i]@, id),
        ids_of(tree).no_duplicates(),
    ensures
        !may_read(tree, scope, id),
        !may_list(tree, scope, id),
{
    assert(under_one_of(tree, scope.excluded@, id));
    lemma_reading_goes_by_what_stands_over(tree, scope, id);
    lemma_naming_goes_by_what_stands_over_and_under(tree, scope, id);
}

// ==================== Finding a tag ====================

/// How a tag is looked up.
#[derive(Debug, Clone, Copy, PartialEq, Eq, Structural)]
pub enum Lookup {
    Id,
    Name,
    /// By name, whatever its case.
    FoldedName,
    /// By id, or by name whatever its case.
    IdOrFoldedName,
}

/// Whether a tag is the one that is looked up.
pub open spec fn is_match(how: Lookup, node: TagTree, needle: Seq<char>) -> bool {
    match how {
        Lookup::Id => node.id == needle,
        Lookup::Name => node.name == needle,
        Lookup::FoldedName => outside::lowercase(node.name) == outside::lowercase(needle),
        Lookup::IdOrFoldedName => node.id == needle || outside::lowercase(node.name)
            == outside::lowercase(needle),
    }
}

/// The first tag, in the order of the tree, that is the one looked up.
pub open spec fn first_match(nodes: Seq<TagTree>, how: Lookup, needle: Seq<char>) -> Option<TagTree>
    decreases nodes,
{
    if nodes.len() == 0 {
        None
    } else if is_match(how, nodes[0], needle) {
        Some(nodes[0])
    } else {
        match first_match(nodes[0].children, how, needle) {
            Some(found) => Some(found),
            None => first_match(nodes.skip(1), how, needle),
        }
    }
}

/// The tag that `needle` names: by id, then by exact name, then by name
/// whatever its case.
pub open spec fn named_tag(nodes: Seq<TagTree>, needle: Seq<char>) -> Option<TagTree> {
    match first_match(nodes, Lookup::Id, needle) {
        Some(found) => Some(found),
        None => match first_match(nodes, Lookup::Name, needle) {
            Some(found) => Some(found),
            None => first_match(nodes, Lookup::FoldedName, needle),
        },
    }
}

/// What an optional tag is.
pub open spec fn optional_tree(node: Option<&TagWithCount>) -> Option<TagTree> {
    match node {
        Some(node) => Some(node@),
        None => None,
    }
}

/// Finds the first tag, in the order of the tree, that is the one looked up.
pub fn find_tag<'a>(nodes: &'a Vec<TagWithCount>, how: Lookup, needle: &str) -> (found: Option<
    &'a TagWithCount,
>)
    ensures
        optional_tree(found) == first_match(trees_of(nodes@), how, needle@),
    decreases nodes,
{
    let ghost all = trees_of(nodes@);
    let mut at: usize = 0;
    proof {
        lemma_trees_of(nodes@);
        assert(all.skip(0) =~= all);
    }
    while at < nodes.len()
        invariant
            at <= nodes.len(),
            all == trees_of(nodes@),
            all.len() == nodes@.len(),
            forall|i: int| 0 <= i < all.len() ==> #[trigger] all[i] == tree_of(nodes@[i]),
            first_match(all, how, needle@) == first_match(all.skip(at as int), how, needle@),
        decreases nodes.len() - at,
    {
        let node = &nodes[at];
        let ghost rest = all.skip(at as int);
        proof {
            assert(rest[0] == all[at as int]);
            assert(rest.skip(1) =~= all.skip(at + 1));
        }
        let hit = match how {
            Lookup::Id => text::same_text(node.tag.id.as_str(), needle),
            Lookup::Name => text::same_text(node.tag.name.as_str(), needle),
            Lookup::FoldedName => text::same_text(
                outside::to_lowercase(node.tag.name.as_str()).as_str(),
                outside::to_lowercase(needle).as_str(),
            ),
            Lookup::IdOrFoldedName => text::same_text(node.tag.id.as_str(), needle)
                || text::same_text(
                outside::to_lowercase(node.tag.name.as_str()).as_str(),
                outside::to_lowercase(needle).as_str(),
            ),
        };
        if hit {
            return Some(node);
        }
        proof {
            assert(decreases_to!(*nodes => nodes@));
            assert(decreases_to!(nodes@ => nodes@[at as int]));
            assert(decreases_to!(nodes@[at as int] => nodes@[at as int].children));
        }
        if let Some(found) = find_tag(&node.children, how, needle) {
            return Some(found);
        }
        at = at + 1;
    }
    None
}

/// Finds a tag by id, then by exact name, then by name whatever its case, and
/// no fuzzier than that.
pub fn resolve_tag<'a>(nodes: &'a Vec<TagWithCount>, needle: &str) -> (found: Option<
    &'a TagWithCount,
>)
    ensures
        optional_tree(found) == named_tag(trees_of(nodes@), needle@),
{
    if let Some(found) = find_tag(nodes, Lookup::Id, needle) {
        return Some(found);
    }
    if let Some(found) = find_tag(nodes, Lookup::Name, needle) {
        return Some(found);
    }
    find_tag(nodes, Lookup::FoldedName, needle)
}

// ==================== What is left of a tree ====================

proof fn lemma_under_is_in_the_tree(nodes: Seq<TagTree>, top: Seq<char>, id: Seq<char>)
    requires
        stands_under(nodes, top, id),
    ensures
        ids_of(nodes).contains(top),
        ids_of(nodes).contains(id),
    decreases nodes,
{
    let node = nodes[0];
    let ids = ids_of(nodes);
    let kids = ids_of(node.children);
    let rest = ids_of(nodes.skip(1));
    assert(ids == seq![node.id] + kids + rest);
    assert(ids[0] == node.id);
    assert forall|x: Seq<char>| kids.contains(x) implies ids.contains(x) by {
        let k = choose|k: int| 0 <= k < kids.len() && kids[k] == x;
        assert(ids[k + 1] == x);
    }
    assert forall|x: Seq<char>| rest.contains(x) implies ids.contains(x) by {
        let k = choose|k: int| 0 <= k < rest.len() && rest[k] == x;
        assert(ids[k + 1 + kids.len()] == x);
    }
    if node.id == top && (node.id == id || kids.contains(id)) {
    } else if stands_under(node.children, top, id) {
        lemma_under_is_in_the_tree(node.children, top, id);
    } else {
        lemma_under_is_in_the_tree(nodes.skip(1), top, id);
    }
}

proof fn lemma_distinct_parts(nodes: Seq<TagTree>)
    requires
        nodes.len() > 0,
        ids_of(nodes).no_duplicates(),
    ensures
        ids_of(nodes[0].children).no_duplicates(),
        ids_of(nodes.skip(1)).no_duplicates(),
        !ids_of(nodes[0].children).contains(nodes[0].id),
        !ids_of(nodes.skip(1)).contains(nodes[0].id),
        forall|x: Seq<char>| #[trigger]
            ids_of(nodes[0].children).contains(x) ==> !ids_of(nodes.skip(1)).contains(x),
{
    let ids = ids_of(nodes);
    let kids = ids_of(nodes[0].children);
    let rest = ids_of(nodes.skip(1));
    assert(ids == seq![nodes[0].id] + kids + rest);
    assert forall|i: int, j: int| 0 <= i < kids.len() && 0 <= j < kids.len() && i != j implies kids[i]
        != kids[j] by {
        assert(ids[i + 1] == kids[i] && ids[j + 1] == kids[j]);
    }
    assert forall|i: int, j: int| 0 <= i < rest.len() && 0 <= j < rest.len() && i != j implies rest[i]
        != rest[j] by {
        assert(ids[i + 1 + kids.len()] == rest[i] && ids[j + 1 + kids.len()] == rest[j]);
    }
    if kids.contains(nodes[0].id) {
        let k = choose|k: int| 0 <= k < kids.len() && kids[k] == nodes[0].id;
        assert(ids[k + 1] == ids[0]);
    }
    if rest.contains(nodes[0].id) {
        let k = choose|k: int| 0 <= k < rest.len() && rest[k] == nodes[0].id;
        assert(ids[k + 1 + kids.len()] == ids[0]);
    }
    assert forall|x: Seq<char>| #[trigger] kids.contains(x) implies !rest.contains(x) by {
        if rest.contains(x) {
            let k = choose|k: int| 0 <= k < kids.len() && kids[k] == x;
            let j = choose|j: int| 0 <= j < rest.len() && rest[j] == x;
            assert(ids[k + 1] == ids[j + 1 + kids.len()]);
        }
    }
}

proof fn lemma_which_part(nodes: Seq<TagTree>, top: Seq<char>, id: Seq<char>)
    requires
        ids_of(nodes).no_duplicates(),
        stands_under(nodes, top, id),
    ensures
        nodes.len() > 0,
        nodes[0].id == top && (nodes[0].id == id || ids_of(nodes[0].children).contains(id))
            || stands_under(nodes[0].children, top, id) || stands_under(nodes.skip(1), top, id),
        stands_under(nodes[0].children, top, id) ==> ids_of(nodes[0].children).contains(top)
            && ids_of(nodes[0].children).contains(id),
        stands_under(nodes.skip(1), top, id) ==> ids_of(nodes.skip(1)).contains(top) && ids_of(
            nodes.skip(1),
        ).contains(id),
{
    if stands_under(nodes[0].children, top, id) {
        lemma_under_is_in_the_tree(nodes[0].children, top, id);
    }
    if stands_under(nodes.skip(1), top, id) {
        lemma_under_is_in_the_tree(nodes.skip(1), top, id);
    }
}

/// What stands under a tag that stands under another one stands under that one
/// too. In the tree no two tags have the same id.
pub proof fn lemma_under_goes_on(nodes: Seq<TagTree>, a: Seq<char>, b: Seq<char>, c: Seq<char>)
    requires
        ids_of(nodes).no_duplicates(),
        stands_under(nodes, a, b),
        stands_under(nodes, b, c),
    ensures
        stands_under(nodes, a, c),
    decreases nodes,
{
    lemma_distinct_parts(nodes);
    lemma_which_part(nodes, a, b);
    lemma_which_part(nodes, b, c);
    let children = nodes[0].children;
    let rest = nodes.skip(1);
    if stands_under(children, a, b) && stands_under(children, b, c) {
        lemma_under_goes_on(children, a, b, c);
    } else if stands_under(rest, a, b) && stands_under(rest, b, c) {
        lemma_under_goes_on(rest, a, b, c);
    }
}

/// Of two tags that a third one stands under, one stands under the other. In
/// the tree no two tags have the same id.
pub proof fn lemma_one_is_under_the_other(
    nodes: Seq<TagTree>,
    a: Seq<char>,
    b: Seq<char>,
    c: Seq<char>,
)
    requires
        ids_of(nodes).no_duplicates(),
        stands_under(nodes, a, c),
        stands_under(nodes, b, c),
    ensures
        stands_under(nodes, a, b) || stands_under(nodes, b, a),
    decreases nodes,
{
    lemma_distinct_parts(nodes);
    lemma_which_part(nodes, a, c);
    lemma_which_part(nodes, b, c);
    let children = nodes[0].children;
    let rest = nodes.skip(1);
    if stands_under(children, a, c) && stands_under(children, b, c) {
        lemma_one_is_under_the_other(children, a, b, c);
    } else if stands_under(rest, a, c) && stands_under(rest, b, c) {
        lemma_one_is_under_the_other(rest, a, b, c);
    }
}

/// A tag that may be named can be reached: every tag that it stands under may
/// be named as well. In the tree no two tags have the same id.
pub proof fn lemma_the_way_down_may_be_named(
    tree: Seq<TagTree>,
    scope: ScopeFilter,
    top: Seq<char>,
    id: Seq<char>,
)
    requires
        ids_of(tree).no_duplicates(),
        stands_under(tree, top, id),
        may_list(tree, scope, id),
    ensures
        may_list(tree, scope, top),
{
    if !scope.open() {
        lemma_under_is_in_the_tree(tree, top, id);
        lemma_naming_goes_by_what_stands_over_and_under(tree, scope, id);
        lemma_naming_goes_by_what_stands_over_and_under(tree, scope, top);
        let list = scope.excluded@;
        if under_one_of(tree, list, top) {
            let i = choose|i: int|
                0 <= i < list.len() && stands_under(tree, #[trigger] list[i]@, top);
            lemma_under_goes_on(tree, list[i]@, top, id);
            assert(under_one_of(tree, list, id));
        }
        let list = scope.included@;
        if under_one_of(tree, list, id) {
            let i = choose|i: int|
                0 <= i < list.len() && stands_under(tree, #[trigger] list[i]@, id);
            lemma_one_is_under_the_other(tree, list[i]@, top, id);
            if stands_under(tree, list[i]@, top) {
                assert(under_one_of(tree, list, top));
            } else {
                assert(over_one_of(tree, list, top));
            }
        } else if over_one_of(tree, list, id) {
            let i = choose|i: int|
                0 <= i < list.len() && stands_under(tree, id, #[trigger] list[i]@);
            lemma_under_goes_on(tree, top, id, list[i]@);
            assert(over_one_of(tree, list, top));
        }
    }
}

proof fn lemma_nameable_stays(
    nodes: Seq<TagTree>,
    tree: Seq<TagTree>,
    scope: ScopeFilter,
    id: Seq<char>,
)
    requires
        ids_of(tree).no_duplicates(),
        forall|top: Seq<char>, low: Seq<char>| #[trigger]
            stands_under(nodes, top, low) ==> stands_under(tree, top, low),
        ids_of(nodes).contains(id),
        may_list(tree, scope, id),
    ensures
        ids_of(pruned(nodes, tree, scope)).contains(id),
    decreases nodes,
{
    let node = nodes[0];
    let ids = ids_of(nodes);
    let kids = ids_of(node.children);
    let rest = ids_of(nodes.skip(1));
    assert(ids == seq![node.id] + kids + rest);
    let k = choose|k: int| 0 <= k < ids.len() && ids[k] == id;
    let kept = pruned(nodes, tree, scope);
    let later = pruned(nodes.skip(1), tree, scope);
    if may_list(tree, scope, node.id) {
        assert(kept.skip(1) =~= later);
        assert(kept[0].children == pruned(node.children, tree, scope));
        assert(ids_of(kept) == seq![node.id] + ids_of(kept[0].children) + ids_of(later));
    }
    if k == 0 {
        assert(ids_of(kept)[0] == id);
    } else if k <= kids.len() {
        assert(kids[k - 1] == id);
        assert(stands_under(nodes, node.id, id));
        lemma_the_way_down_may_be_named(tree, scope, node.id, id);
        assert forall|top: Seq<char>, low: Seq<char>| #[trigger]
            stands_under(node.children, top, low) implies stands_under(tree, top, low) by {
            assert(stands_under(nodes, top, low));
        }
        lemma_nameable_stays(node.children, tree, scope, id);
        let below = ids_of(kept[0].children);
        let j = choose|j: int| 0 <= j < below.len() && below[j] == id;
        assert(ids_of(kept)[j + 1] == id);
    } else {
        assert(rest[k - 1 - kids.len()] == id);
        assert forall|top: Seq<char>, low: Seq<char>| #[trigger]
            stands_under(nodes.skip(1), top, low) implies stands_under(tree, top, low) by {
            assert(stands_under(nodes, top, low));
        }
        lemma_nameable_stays(nodes.skip(1), tree, scope, id);
        if may_list(tree, scope, node.id) {
            let j = choose|j: int| 0 <= j < ids_of(later).len() && ids_of(later)[j] == id;
            assert(ids_of(kept)[j + 1 + ids_of(kept[0].children).len()] == id);
        }
    }
}

/// The tree that a conversation gets to see holds the tags that may be named,
/// all of them and no others. In the tree no two tags have the same id.
pub proof fn lemma_visible_is_what_may_be_named(
    tree: Seq<TagTree>,
    scope: ScopeFilter,
    id: Seq<char>,
)
    requires
        ids_of(tree).no_duplicates(),
    ensures
        ids_of(visible(tree, scope)).contains(id) <==> ids_of(tree).contains(id) && may_list(
            tree,
            scope,
            id,
        ),
{
    if !scope.open() {
        let kept = ids_of(pruned(tree, tree, scope));
        lemma_visible_tags_may_be_named(tree, tree, scope);
        if kept.contains(id) {
            let k = choose|k: int| 0 <= k < kept.len() && kept[k] == id;
            assert(may_list(tree, scope, kept[k]));
            lemma_naming_goes_by_what_stands_over_and_under(tree, scope, id);
        }
        if ids_of(tree).contains(id) && may_list(tree, scope, id) {
            lemma_nameable_stays(tree, tree, scope, id);
        }
    }
}

/// Pruning changes nothing about a tag that stays but what is below it: its
/// name and its atoms stay, and the tags below it are counted as they are shown.
pub proof fn lemma_a_tag_that_stays_is_the_same(
    nodes: Seq<TagTree>,
    tree: Seq<TagTree>,
    scope: ScopeFilter,
    i: int,
) -> (j: int)
    requires
        0 <= i < pruned(nodes, tree, scope).len(),
    ensures
        0 <= j < nodes.len(),
        may_list(tree, scope, nodes[j].id),
        pruned(nodes, tree, scope)[i].id == nodes[j].id,
        pruned(nodes, tree, scope)[i].name == nodes[j].name,
        pruned(nodes, tree, scope)[i].atom_count == nodes[j].atom_count,
        pruned(nodes, tree, scope)[i].children == pruned(nodes[j].children, tree, scope),
        pruned(nodes[j].children, tree, scope).len() <= i32::MAX ==> pruned(
            nodes,
            tree,
            scope,
        )[i].children_total == pruned(nodes[j].children, tree, scope).len(),
    decreases nodes,
{
    let rest = pruned(nodes.skip(1), tree, scope);
    if may_list(tree, scope, nodes[0].id) {
        if i == 0 {
            0
        } else {
            assert(pruned(nodes, tree, scope)[i] == rest[i - 1]);
            let j = lemma_a_tag_that_stays_is_the_same(nodes.skip(1), tree, scope, i - 1);
            j + 1
        }
    } else {
        let j = lemma_a_tag_that_stays_is_the_same(nodes.skip(1), tree, scope, i);
        j + 1
    }
}

/// The tags of a tree, in the order of the tree.
pub open spec fn tags_in(nodes: Seq<TagTree>) -> Seq<TagTree>
    decreases nodes,
{
    if nodes.len() == 0 {
        Seq::empty()
    } else {
        seq![nodes[0]] + tags_in(nodes[0].children) + tags_in(nodes.skip(1))
    }
}

proof fn lemma_first_match(nodes: Seq<TagTree>, how: Lookup, needle: Seq<char>) -> (k: int)
    ensures
        match first_match(nodes, how, needle) {
            Some(tag) => {
                &&& 0 <= k < tags_in(nodes).len()
                &&& tags_in(nodes)[k] == tag
                &&& is_match(how, tag, needle)
                &&& forall|j: int|
                    0 <= j < k ==> !is_match(how, #[trigger] tags_in(nodes)[j], needle)
            },
            None => forall|j: int|
                0 <= j < tags_in(nodes).len() ==> !is_match(
                    how,
                    #[trigger] tags_in(nodes)[j],
                    needle,
                ),
        },
    decreases nodes,
{
    if nodes.len() == 0 {
        0
    } else {
        let all = tags_in(nodes);
        let kids = tags_in(nodes[0].children);
        let rest = tags_in(nodes.skip(1));
        let n = kids.len() as int;
        assert(all == seq![nodes[0]] + kids + rest);
        assert(all[0] == nodes[0]);
        assert forall|j: int| 0 < j <= n implies #[trigger] all[j] == kids[j - 1] by {}
        assert forall|j: int| n < j < all.len() implies #[trigger] all[j] == rest[j - 1 - n] by {}
        if is_match(how, nodes[0], needle) {
            0
        } else {
            let a = lemma_first_match(nodes[0].children, how, needle);
            if first_match(nodes[0].children, how, needle) is Some {
                a + 1
            } else {
                let b = lemma_first_match(nodes.skip(1), how, needle);
                b + 1 + n
            }
        }
    }
}

/// The tag that a text names is the first in the tree whose id it is; if there
/// is none, the first whose name it is; and if there is none either, the first
/// whose name it is when case does not count. Where no tag is named, none has
/// that id or that name, in whatever case.
pub proof fn lemma_a_tag_goes_by_its_id_before_its_name(nodes: Seq<TagTree>, needle: Seq<char>)
    ensures
        ({
            let all = tags_in(nodes);
            let by_id = exists|j: int| 0 <= j < all.len() && (#[trigger] all[j]).id == needle;
            let by_name = exists|j: int| 0 <= j < all.len() && (#[trigger] all[j]).name == needle;
            match named_tag(nodes, needle) {
                Some(tag) => exists|k: int|
                    #![trigger all[k]]
                    0 <= k < all.len() && all[k] == tag && if by_id {
                        tag.id == needle && forall|j: int|
                            0 <= j < k ==> (#[trigger] all[j]).id != needle
                    } else if by_name {
                        tag.name == needle && forall|j: int|
                            0 <= j < k ==> (#[trigger] all[j]).name != needle
                    } else {
                        outside::lowercase(tag.name) == outside::lowercase(needle) && forall|j: int|
                            0 <= j < k ==> outside::lowercase((#[trigger] all[j]).name)
                                != outside::lowercase(needle)
                    },
                None => forall|j: int|
                    0 <= j < all.len() ==> (#[trigger] all[j]).id != needle && all[j].name != needle
                        && outside::lowercase(all[j].name) != outside::lowercase(needle),
            }
        }),
{
    let all = tags_in(nodes);
    let a = lemma_first_match(nodes, Lookup::Id, needle);
    let b = lemma_first_match(nodes, Lookup::Name, needle);
    let c = lemma_first_match(nodes, Lookup::FoldedName, needle);
    if let Some(tag) = first_match(nodes, Lookup::Id, needle) {
        assert(all[a] == tag);
    } else if let Some(tag) = first_match(nodes, Lookup::Name, needle) {
        assert(all[b] == tag);
    } else if let Some(tag) = first_match(nodes, Lookup::FoldedName, needle) {
        assert(all[c] == tag);
    }
}

/// What a scope admits: something that one of the included tags covers, if
/// there are any, that all required ones cover, and that no excluded one does.
pub proof fn lemma_admission_goes_by_the_covering_tags(
    scope: ScopeFilter,
    covering: Set<Seq<char>>,
)
    ensures
        scope.admits(covering) <==> {
            &&& scope.included@.len() == 0 || exists|i: int|
                0 <= i < scope.included@.len() && covering.contains(
                    #[trigger] scope.included@[i]@,
                )
            &&& forall|i: int|
                0 <= i < scope.required@.len() ==> covering.contains(
                    #[trigger] scope.required@[i]@,
                )
            &&& forall|i: int|
                0 <= i < scope.excluded@.len() ==> !covering.contains(
                    #[trigger] scope.excluded@[i]@,
                )
        },
        scope.open() <==> scope.included@.len() == 0 && scope.required@.len() == 0
            && scope.excluded@.len() == 0,
{
}

/// Where either the id or the name counts, the first tag in the tree is found
/// whose id is looked up or whose name is, whatever its case.
pub proof fn lemma_the_first_of_that_id_or_name_is_found(
    nodes: Seq<TagTree>,
    needle: Seq<char>,
) -> (k: int)
    ensures
        match first_match(nodes, Lookup::IdOrFoldedName, needle) {
            Some(tag) => {
                &&& 0 <= k < tags_in(nodes).len()
                &&& tags_in(nodes)[k] == tag
                &&& tag.id == needle || outside::lowercase(tag.name) == outside::lowercase(needle)
                &&& forall|j: int|
                    0 <= j < k ==> (#[trigger] tags_in(nodes)[j]).id != needle
                        && outside::lowercase(tags_in(nodes)[j].name) != outside::lowercase(needle)
            },
            None => forall|j: int|
                0 <= j < tags_in(nodes).len() ==> (#[trigger] tags_in(nodes)[j]).id != needle
                    && outside::lowercase(tags_in(nodes)[j].name) != outside::lowercase(needle),
        },
{
    lemma_first_match(nodes, Lookup::IdOrFoldedName, needle)
}

} // verus!
