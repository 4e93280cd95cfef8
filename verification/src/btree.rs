//! An in-memory B+ tree keyed by `u64`: searches descend from the root to
//! a leaf, which holds the keys and the values stored under them.

use vstd::prelude::*;

verus! {

/// A node: inner nodes have children, separated by keys; leaves hold keys
/// and the values stored under them.
pub struct Node<V> {
    pub children: Option<Vec<Node<V>>>,
    pub keys: Option<Vec<u64>>,
    pub values: Option<Vec<V>>,
}

/// A B+ tree of order `b`.
pub struct BTree<V> {
    pub root: Box<Node<V>>,
    pub bsize: usize,
    pub b: i32,
    pub page_size: usize,
}

/// Whether the scan of `keys` for `key`, over the children positions
/// `1..n_children`, reads no key past the end of `keys`.
pub open spec fn scan_in_bounds(n_children: int, keys: Seq<u64>, key: u64) -> bool {
    !(if keys.len() > 1 { keys.len() as int } else { 1int } < n_children && forall|j: int|
        1 <= j < keys.len() ==> key > #[trigger] keys[j])
}

/// Whether some key at a position in `1..n_children` is at least `key`.
pub open spec fn has_hit(n_children: int, keys: Seq<u64>, key: u64) -> bool {
    exists|i: int| 1 <= i < n_children && i < keys.len() && key <= #[trigger] keys[i]
}

/// The first position in `1..n_children` whose key is at least `key`.
pub open spec fn first_hit(n_children: int, keys: Seq<u64>, key: u64) -> int {
    choose|i: int|
        1 <= i < n_children && i < keys.len() && key <= #[trigger] keys[i] && forall|j: int|
            1 <= j < i ==> key > keys[j]
}

/// The child into which the search for `key` descends from a node with
/// `n_children` children and separator `keys`: the first child `i` from the
/// second on whose separator `keys[i]` is at least `key`, else the last one.
pub open spec fn descend_to(n_children: int, keys: Option<Seq<u64>>, key: u64) -> int {
    match keys {
        Some(k) => if has_hit(n_children, k, key) {
            first_hit(n_children, k, key)
        } else {
            n_children - 1
        },
        None => n_children - 1,
    }
}

/// The separators of a node as a sequence.
pub open spec fn keys_of(keys: Option<Vec<u64>>) -> Option<Seq<u64>> {
    match keys {
        Some(k) => Some(k@),
        None => None,
    }
}

/// Whether the search for `key` from `node` runs without reading past the end
/// of a key list.
pub open spec fn search_ok<V>(node: Node<V>, key: u64) -> bool
    decreases node,
{
    match node.children {
        None => true,
        Some(c) => {
            let keys = keys_of(node.keys);
            &&& (keys matches Some(k) ==> scan_in_bounds(c@.len() as int, k, key))
            &&& c@.len() > 0 ==> {
                let i = descend_to(c@.len() as int, keys, key);
                0 <= i < c@.len() && search_ok(c@[i], key)
            }
        }
    }
}

/// The leaf at which the search for `key` from `node` ends: `node` itself when
/// it has no children, `None` when the search meets a node whose list of
/// children is empty.
pub open spec fn path_leaf<V>(node: Node<V>, key: u64) -> Option<Node<V>>
    decreases node,
{
    match node.children {
        None => Some(node),
        Some(c) => {
            let i = descend_to(c@.len() as int, keys_of(node.keys), key);
            if 0 <= i < c@.len() {
                path_leaf(c@[i], key)
            } else {
                None
            }
        }
    }
}

/// The position of the first occurrence of `key` in `keys` (the length of
/// `keys` when it does not occur).
pub open spec fn position(keys: Seq<u64>, key: u64) -> int
    decreases keys.len(),
{
    if keys.len() == 0 {
        0
    } else if keys[0] == key {
        0
    } else {
        1 + position(keys.drop_first(), key)
    }
}

/// Whether the leaf `leaf` holds `key`.
pub open spec fn leaf_has<V>(leaf: Node<V>, key: u64) -> bool {
    leaf.keys matches Some(k) && k@.contains(key)
}

/// The value that the leaf `leaf` holds under `key`: the one beside the
/// first occurrence of `key`.
pub open spec fn leaf_get<V>(leaf: Node<V>, key: u64) -> Option<V> {
    match (leaf.keys, leaf.values) {
        (Some(k), Some(v)) => if k@.contains(key) {
            Some(v@[position(k@, key)])
        } else {
            None
        },
        _ => None,
    }
}

/// Whether a leaf's keys and values pair up: both present with one value per
/// key, or both absent.
pub open spec fn leaf_ok<V>(leaf: Node<V>) -> bool {
    match (leaf.keys, leaf.values) {
        (Some(k), Some(v)) => k@.len() == v@.len(),
        (None, None) => true,
        _ => false,
    }
}

/// Whether the search for `key` from `node` runs in bounds and ends, if it
/// reaches a leaf, at one whose keys and values pair up.
#[verifier::opaque]
pub open spec fn fits<V>(node: Node<V>, key: u64) -> bool {
    &&& search_ok(node, key)
    &&& (path_leaf(node, key) matches Some(l) ==> leaf_ok(l))
}

/// Whether the tree from `node` holds `key`.
#[verifier::opaque]
pub open spec fn tree_has<V>(node: Node<V>, key: u64) -> bool {
    path_leaf(node, key) matches Some(l) && leaf_has(l, key)
}

/// The value that the tree from `node` holds under `key`.
#[verifier::opaque]
pub open spec fn tree_get<V>(node: Node<V>, key: u64) -> Option<V> {
    match path_leaf(node, key) {
        Some(l) => leaf_get(l, key),
        None => None,
    }
}

/// `position` is the first occurrence, or the length where there is none.
pub proof fn lemma_position(keys: Seq<u64>, key: u64)
    ensures
        0 <= position(keys, key) <= keys.len(),
        forall|j: int| 0 <= j < position(keys, key) ==> keys[j] != key,
        position(keys, key) < keys.len() ==> keys[position(keys, key)] == key,
        keys.contains(key) <==> position(keys, key) < keys.len(),
    decreases keys.len(),
{
    if keys.len() > 0 && keys[0] != key {
        let rest = keys.drop_first();
        lemma_position(rest, key);
        assert forall|j: int| 0 <= j < position(keys, key) implies keys[j] != key by {
            if j > 0 {
                assert(keys[j] == rest[j - 1]);
            }
        }
        if keys.contains(key) {
            let w = choose|w: int| 0 <= w < keys.len() && keys[w] == key;
            assert(rest[w - 1] == key);
        }
        if position(keys, key) < keys.len() {
            assert(keys[position(keys, key)] == rest[position(rest, key)]);
        }
    } else if keys.len() > 0 {
        assert(keys.contains(key));
    }
}

/// A position before which `key` does not occur and at which it does (or the
/// length) is `position`.
pub proof fn lemma_position_is(keys: Seq<u64>, key: u64, at: int)
    requires
        0 <= at <= keys.len(),
        forall|j: int| 0 <= j < at ==> keys[j] != key,
        at < keys.len() ==> keys[at] == key,
    ensures
        position(keys, key) == at,
{
    lemma_position(keys, key);
    let p = position(keys, key);
    if p < at {
        assert(keys[p] == key);
    } else if at < p {
        assert(keys[at] != key);
    }
}

/// Inserting `key` at `at` moves the first occurrence of every other key at
/// or past `at` one place on, and keeps whether it occurs.
pub proof fn lemma_position_insert(keys: Seq<u64>, at: int, key: u64, other: u64)
    requires
        0 <= at <= keys.len(),
        other != key,
    ensures
        ({
            let p = position(keys, other);
            position(keys.insert(at, key), other) == if p < at {
                p
            } else {
                p + 1
            }
        }),
        keys.insert(at, key).contains(other) == keys.contains(other),
{
    lemma_position(keys, other);
    let p = position(keys, other);
    let k2 = keys.insert(at, key);
    let q = if p < at {
        p
    } else {
        p + 1
    };
    assert forall|j: int| 0 <= j < q implies k2[j] != other by {
        if j > at {
            assert(k2[j] == keys[j - 1]);
        }
    }
    lemma_position_is(k2, other, q);
    lemma_position(k2, other);
}

impl<V> Node<V> {
    /// Whether the subtree from this node holds `key`.
    pub open spec fn has(self, key: u64) -> bool {
        tree_has(self, key)
    }
}

/// The child into which the search for `key` descends from a node with `n`
/// children and separators `keys`, as `descend_to` says.
fn descend(n: usize, keys: &Option<Vec<u64>>, key: u64) -> (r: usize)
    requires
        n > 0,
        keys matches Some(k) ==> scan_in_bounds(n as int, k@, key),
    ensures
        r == descend_to(n as int, keys_of(*keys), key),
        r < n,
{
    if let Some(ks) = keys {
        let mut i: usize = 1;
        while i < n
            invariant
                1 <= i,
                scan_in_bounds(n as int, ks@, key),
                *keys == Some(*ks),
                forall|j: int| 1 <= j < i ==> key > #[trigger] ks@[j],
            decreases n - i,
        {
            if key <= ks[i] {
                proof {
                    assert(has_hit(n as int, ks@, key));
                    let f = first_hit(n as int, ks@, key);
                    if f < i {
                        assert(key > ks@[f]);
                    } else if f > i {
                        assert(key > ks@[i as int]);
                    }
                    assert(f == i);
                    assert(descend_to(n as int, Some(ks@), key) == i);
                }
                return i;
            }
            i = i + 1;
        }
        proof {
            if has_hit(n as int, ks@, key) {
                let w = choose|w: int| 1 <= w < n && w < ks@.len() && key <= #[trigger] ks@[w];
                assert(key > ks@[w]);
            }
        }
    }
    n - 1
}

/// Stores `value` under `key` in the leaf `leaf`: in place of the value
/// beside `key` where it is there, else with `key` inserted before the first
/// greater key.
fn put_in_leaf<V>(leaf: &mut Node<V>, key: u64, value: V)
    requires
        old(leaf).children is None,
        leaf_ok(*old(leaf)),
    ensures
        final(leaf).children is None,
        leaf_ok(*final(leaf)),
        leaf_has(*final(leaf), key),
        leaf_get(*final(leaf), key) == Some(value),
        forall|k: u64|
            k != key ==> leaf_has(*final(leaf), k) == leaf_has(*old(leaf), k) && #[trigger] leaf_get(
                *final(leaf),
                k,
            ) == leaf_get(*old(leaf), k),
{
    let ghost before = *leaf;
    let mut keys = match leaf.keys.take() {
        Some(k) => k,
        None => Vec::new(),
    };
    let mut values = match leaf.values.take() {
        Some(v) => v,
        None => Vec::new(),
    };
    let ghost ks = keys@;
    let ghost vs = values@;
    assert(keys@.len() == values@.len());
    let mut j: usize = 0;
    while j < keys.len() && keys[j] != key
        invariant
            j <= keys@.len(),
            keys@ == ks,
            forall|i: int| 0 <= i < j ==> keys@[i] != key,
        decreases keys@.len() - j,
    {
        j = j + 1;
    }
    proof {
        lemma_position_is(ks, key, j as int);
        lemma_position(ks, key);
    }
    if j < keys.len() {
        values.set(j, value);
        proof {
            assert forall|k: u64| k != key implies leaf_get(
                Node { children: None, keys: Some(keys), values: Some(values) },
                k,
            ) == leaf_get(before, k) by {
                lemma_position(ks, k);
            }
        }
    } else {
        let mut p: usize = 0;
        while p < keys.len() && keys[p] < key
            invariant
                p <= keys@.len(),
                keys@ == ks,
            decreases keys@.len() - p,
        {
            p = p + 1;
        }
        keys.insert(p, key);
        values.insert(p, value);
        proof {
            assert(ks.insert(p as int, key) == keys@);
            assert forall|i: int| 0 <= i < p implies keys@[i] != key by {
                assert(keys@[i] == ks[i]);
            }
            lemma_position_is(keys@, key, p as int);
            assert(keys@.contains(key)) by {
                assert(keys@[p as int] == key);
            }
            assert forall|k: u64| k != key implies leaf_has(
                Node { children: None, keys: Some(keys), values: Some(values) },
                k,
            ) == leaf_has(before, k) && leaf_get(
                Node { children: None, keys: Some(keys), values: Some(values) },
                k,
            ) == leaf_get(before, k) by {
                lemma_position_insert(ks, p as int, key, k);
                lemma_position(ks, k);
            }
        }
    }
    leaf.keys = Some(keys);
    leaf.values = Some(values);
}

/// The search for `key` from a node whose search descends into child `i`
/// runs in bounds and ends as the search from that child does.
proof fn lemma_descend_into<V>(node: Node<V>, i: int, key: u64)
    requires
        node.children matches Some(c) && 0 <= i < c@.len(),
        i == descend_to(node.children->0@.len() as int, keys_of(node.keys), key),
    ensures
        path_leaf(node, key) == path_leaf(node.children->0@[i], key),
        search_ok(node, key) == ((keys_of(node.keys) matches Some(k) ==> scan_in_bounds(
            node.children->0@.len() as int,
            k,
            key,
        )) && 0 <= i < node.children->0@.len() && search_ok(node.children->0@[i], key)),
{
}

/// Two nodes with the same separators and children that differ at most in
/// child `i` run every search that does not descend into child `i` alike.
proof fn lemma_child_replaced<V>(a: Node<V>, b: Node<V>, i: int, k: u64)
    requires
        a.children matches Some(ca) && ca@.len() > 0,
        b.children matches Some(cb) && cb@.len() == a.children->0@.len(),
        a.keys == b.keys,
        0 <= i < a.children->0@.len(),
        forall|j: int|
            0 <= j < a.children->0@.len() && j != i ==> b.children->0@[j] == a.children->0@[j],
    ensures
        ({
            let ik = descend_to(a.children->0@.len() as int, keys_of(a.keys), k);
            let scan = keys_of(a.keys) matches Some(ks) ==> scan_in_bounds(
                a.children->0@.len() as int,
                ks,
                k,
            );
            &&& ik != i ==> path_leaf(b, k) == path_leaf(a, k) && search_ok(b, k) == search_ok(
                a,
                k,
            )
            &&& ik == i ==> {
                &&& path_leaf(a, k) == path_leaf(a.children->0@[i], k)
                &&& path_leaf(b, k) == path_leaf(b.children->0@[i], k)
                &&& search_ok(a, k) == (scan && search_ok(a.children->0@[i], k))
                &&& search_ok(b, k) == (scan && search_ok(b.children->0@[i], k))
            }
        }),
{
    let n = a.children->0@.len() as int;
    let ik = descend_to(n, keys_of(a.keys), k);
    if 0 <= ik < n && ik != i {
        assert(b.children->0@[ik] == a.children->0@[ik]);
    }
    if ik == i {
        lemma_descend_into(a, i, k);
        lemma_descend_into(b, i, k);
    }
}

/// A node whose child `i`, on the search path of `key`, was changed as
/// storing under `key` changes a subtree is changed in the same way.
proof fn lemma_one_child_changed<V>(a: Node<V>, b: Node<V>, i: int, key: u64)
    requires
        a.children matches Some(ca) && 0 <= i < ca@.len(),
        b.children matches Some(cb) && cb@.len() == a.children->0@.len(),
        a.keys == b.keys,
        forall|j: int|
            0 <= j < a.children->0@.len() && j != i ==> b.children->0@[j] == a.children->0@[j],
        i == descend_to(a.children->0@.len() as int, keys_of(a.keys), key),
        forall|k: u64|
            fits(a.children->0@[i], k) ==> #[trigger] fits(b.children->0@[i], k),
        forall|k: u64|
            k != key ==> tree_has(b.children->0@[i], k) == tree_has(a.children->0@[i], k)
                && #[trigger] tree_get(b.children->0@[i], k) == tree_get(a.children->0@[i], k),
    ensures
        path_leaf(a, key) == path_leaf(a.children->0@[i], key),
        path_leaf(b, key) == path_leaf(b.children->0@[i], key),
        tree_has(b, key) == tree_has(b.children->0@[i], key),
        tree_get(b, key) == tree_get(b.children->0@[i], key),
        forall|k: u64| fits(a, k) ==> #[trigger] fits(b, k),
        forall|k: u64|
            k != key ==> tree_has(b, k) == tree_has(a, k) && #[trigger] tree_get(b, k) == tree_get(
                a,
                k,
            ),
{
    lemma_descend_into(a, i, key);
    lemma_descend_into(b, i, key);
    lemma_same_leaf(b, b.children->0@[i], key);
    assert forall|k: u64| #![trigger fits(b, k)] #![trigger tree_get(b, k)]
        (fits(a, k) ==> fits(b, k)) && (k != key ==> tree_has(b, k) == tree_has(a, k)
            && tree_get(b, k) == tree_get(a, k)) by {
        lemma_child_step(a, b, i, key, k);
    }
}

/// The search for `key` from a node runs as from the child it descends into.
proof fn lemma_fits_child<V>(a: Node<V>, i: int, key: u64)
    requires
        a.children matches Some(ca) && 0 <= i < ca@.len(),
        i == descend_to(a.children->0@.len() as int, keys_of(a.keys), key),
        fits(a, key),
    ensures
        fits(a.children->0@[i], key),
{
    reveal(fits);
    lemma_descend_into(a, i, key);
}

/// Two nodes whose searches for `key` end at the same leaf hold the same
/// under `key`.
proof fn lemma_same_leaf<V>(a: Node<V>, b: Node<V>, key: u64)
    requires
        path_leaf(a, key) == path_leaf(b, key),
    ensures
        tree_has(a, key) == tree_has(b, key),
        tree_get(a, key) == tree_get(b, key),
{
    reveal(tree_has);
    reveal(tree_get);
}

/// What `fits` says.
proof fn lemma_fits<V>(n: Node<V>, key: u64)
    requires
        fits(n, key),
    ensures
        search_ok(n, key),
        path_leaf(n, key) matches Some(l) ==> leaf_ok(l),
{
    reveal(fits);
}

/// At a node without children, every search ends there.
proof fn lemma_leaf<V>(n: Node<V>, k: u64)
    requires
        n.children is None,
    ensures
        fits(n, k) == leaf_ok(n),
        tree_has(n, k) == leaf_has(n, k),
        tree_get(n, k) == leaf_get(n, k),
{
    reveal(fits);
    reveal(tree_has);
    reveal(tree_get);
}

/// One search of `k` through a node whose child `i` was changed as storing
/// under `key` changes a subtree.
proof fn lemma_child_step<V>(a: Node<V>, b: Node<V>, i: int, key: u64, k: u64)
    requires
        a.children matches Some(ca) && 0 <= i < ca@.len(),
        b.children matches Some(cb) && cb@.len() == a.children->0@.len(),
        a.keys == b.keys,
        forall|j: int|
            0 <= j < a.children->0@.len() && j != i ==> b.children->0@[j] == a.children->0@[j],
        fits(a.children->0@[i], k) ==> fits(b.children->0@[i], k),
        k != key ==> tree_has(b.children->0@[i], k) == tree_has(a.children->0@[i], k)
            && tree_get(b.children->0@[i], k) == tree_get(a.children->0@[i], k),
    ensures
        fits(a, k) ==> fits(b, k),
        k != key ==> tree_has(b, k) == tree_has(a, k) && tree_get(b, k) == tree_get(a, k),
{
    reveal(fits);
    reveal(tree_has);
    reveal(tree_get);
    lemma_child_replaced(a, b, i, k);
}

/// Stores `value` under `key` in the leaf on the search path of `key` from
/// `node`; where the search meets a node without children to descend into,
/// nothing changes.
fn insert_into<V>(node: &mut Node<V>, key: u64, value: V)
    requires
        fits(*old(node), key),
    ensures
        path_leaf(*old(node), key) is None ==> path_leaf(*final(node), key) is None,
        path_leaf(*old(node), key) is Some ==> tree_has(*final(node), key) && tree_get(
            *final(node),
            key,
        ) == Some(value),
        forall|k: u64| fits(*old(node), k) ==> #[trigger] fits(*final(node), k),
        forall|k: u64|
            k != key ==> tree_has(*final(node), k) == tree_has(*old(node), k) && #[trigger] tree_get(
                *final(node),
                k,
            ) == tree_get(*old(node), k),
    decreases *old(node),
{
    let ghost before = *node;
    proof {
        lemma_fits(before, key);
    }
    match node.children.take() {
        None => {
            put_in_leaf(node, key, value);
            proof {
                assert forall|k: u64| #![trigger fits(*node, k)] #![trigger tree_get(*node, k)]
                    (fits(before, k) ==> fits(*node, k)) && tree_has(*node, k) == leaf_has(*node, k)
                    && tree_get(*node, k) == leaf_get(*node, k) && tree_has(before, k) == leaf_has(
                    before,
                    k,
                ) && tree_get(before, k) == leaf_get(before, k) by {
                    lemma_leaf(before, k);
                    lemma_leaf(*node, k);
                }
            }
        },
        Some(mut c) => {
            if c.len() == 0 {
                node.children = Some(c);
                return;
            }
            let i = descend(c.len(), &node.keys, key);
            let ghost child = c@[i as int];
            proof {
                lemma_descend_into(before, i as int, key);
                lemma_fits_child(before, i as int, key);
            }
            insert_into(&mut c[i], key, value);
            node.children = Some(c);
            proof {
                lemma_one_child_changed(before, *node, i as int, key);
            }
        },
    }
}

impl<V> BTree<V> {
    /// Whether every search runs in bounds and ends, where it reaches a leaf,
    /// at one whose keys and values pair up.
    pub open spec fn well_formed(self) -> bool {
        forall|k: u64| fits(*self.root, k)
    }

    /// The leaf on the search path of `key` from `node`: at each node with
    /// children the search descends as `descend_to` says, and a node without
    /// children is the leaf. `None` where the search meets a node whose list
    /// of children is empty.
    pub fn leaf_search<'a>(&self, key: &u64, node: &'a Node<V>) -> (r: Option<&'a Node<V>>)
        requires
            search_ok(*node, *key),
        ensures
            match r {
                Some(l) => path_leaf(*node, *key) == Some(*l),
                None => path_leaf(*node, *key) is None,
            },
        decreases *node,
    {
        if let Some(children) = &node.children {
            if children.len() > 0 {
                let i = descend(children.len(), &node.keys, *key);
                return self.leaf_search(key, &children[i]);
            }
            return None;
        }
        Some(node)
    }

    /// Whether `key` is stored: whether the leaf on its search path holds it.
    #[verifier::loop_isolation(false)]
    pub fn search(&self, key: &u64) -> (found: bool)
        requires
            search_ok(*self.root, *key),
        ensures
            found == tree_has(*self.root, *key),
    {
        proof {
            reveal(tree_has);
        }
        if let Some(leaf) = self.leaf_search(key, &self.root) {
            if let Some(leaf_keys) = &leaf.keys {
                let mut i: usize = 0;
                while i < leaf_keys.len()
                    invariant
                        forall|j: int| 0 <= j < i ==> leaf_keys@[j] != *key,
                    decreases leaf_keys@.len() - i,
                {
                    if *key == leaf_keys[i] {
                        return true;
                    }
                    i = i + 1;
                }
            }
        }
        false
    }

    /// The value stored under `key`: the one beside the first occurrence of
    /// `key` in the leaf on its search path.
    #[verifier::loop_isolation(false)]
    pub fn get_value(&self, key: &u64) -> (v: Option<&V>)
        requires
            fits(*self.root, *key),
        ensures
            match v {
                Some(x) => tree_get(*self.root, *key) == Some(*x),
                None => tree_get(*self.root, *key) is None,
            },
    {
        proof {
            reveal(fits);
            reveal(tree_get);
        }
        if let Some(leaf) = self.leaf_search(key, &self.root) {
            if let Some(leaf_keys) = &leaf.keys {
                let mut i: usize = 0;
                while i < leaf_keys.len()
                    invariant
                        forall|j: int| 0 <= j < i ==> leaf_keys@[j] != *key,
                    decreases leaf_keys@.len() - i,
                {
                    if *key == leaf_keys[i] {
                        proof {
                            lemma_position_is(leaf_keys@, *key, i as int);
                        }
                        if let Some(values) = &leaf.values {
                            return Some(&values[i]);
                        }
                        return None;
                    }
                    i = i + 1;
                }
            }
        }
        None
    }

    /// Whether `node` holds at least `b` keys (a node without keys is not
    /// full).
    pub fn check_node_full(&self, node: &Node<V>) -> (full: bool)
        ensures
            full == match node.keys {
                Some(k) => k@.len() >= self.b,
                None => false,
            },
    {
        if let Some(keys) = &node.keys {
            self.b < 0 || keys.len() >= self.b as usize
        } else {
            false
        }
    }

    /// Stores `value` under `key` in the leaf on the search path of `key`,
    /// in place of the value stored there under `key` if there is one. Leaves
    /// are not split: a full leaf takes the record too. Where the search meets
    /// a node without children to descend into, nothing is stored.
    pub fn insert(&mut self, key: u64, value: V)
        requires
            old(self).well_formed(),
        ensures
            final(self).well_formed(),
            final(self).b == old(self).b,
            final(self).bsize == old(self).bsize,
            final(self).page_size == old(self).page_size,
            path_leaf(*old(self).root, key) is None ==> path_leaf(*final(self).root, key) is None,
            path_leaf(*old(self).root, key) is Some ==> tree_has(*final(self).root, key)
                && tree_get(*final(self).root, key) == Some(value),
            forall|k: u64|
                k != key ==> tree_has(*final(self).root, k) == tree_has(*old(self).root, k)
                    && #[trigger] tree_get(*final(self).root, k) == tree_get(*old(self).root, k),
    {
        insert_into(&mut self.root, key, value);
    }
}

} // verus!
