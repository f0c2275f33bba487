//! Values inside objects inside objects, reached by a dotted key
//! ("cropRegion.x", "webcam.cropRegion.width"), read and written as the
//! inspector reads and writes the nested fields of a region or a setting.

use vstd::prelude::*;
use crate::text::{split_once, str_eq, texts};

verus! {

/// A JSON value as nested edits see it: an object, with its members in
/// order, or any other value, held unread as its JSON text.
#[derive(Debug, PartialEq, Eq)]
pub enum Node {
    Leaf(String),
    Object(Vec<(String, Node)>),
}

/// `Node` with its texts as characters.
pub enum NodeView {
    Leaf(Seq<char>),
    Object(Seq<(Seq<char>, NodeView)>),
}

/// The view of a node.
pub open spec fn node_view(n: Node) -> NodeView
    decreases n,
{
    match n {
        Node::Leaf(t) => NodeView::Leaf(t@),
        Node::Object(m) => NodeView::Object(members_view(m@)),
    }
}

/// The views of an object's members, in order.
pub open spec fn members_view(m: Seq<(String, Node)>) -> Seq<(Seq<char>, NodeView)>
    decreases m,
{
    if m.len() == 0 {
        Seq::empty()
    } else {
        members_view(m.drop_last()).push((m.last().0@, node_view(m.last().1)))
    }
}

impl View for Node {
    type V = NodeView;

    open spec fn view(&self) -> NodeView {
        node_view(*self)
    }
}

/// JSON's null, which a read of a missing member gives.
pub open spec fn null() -> NodeView {
    NodeView::Leaf("null"@)
}

/// The segments of a dotted key, split at every dot: "a.b" has "a" and
/// "b", "a..b" an empty one between them, and a key with no dot itself.
pub open spec fn segments(key: Seq<char>) -> Seq<Seq<char>>
    decreases key.len(),
{
    if key.len() == 0 {
        seq![Seq::empty()]
    } else if key[0] == '.' {
        seq![Seq::<char>::empty()] + segments(key.drop_first())
    } else {
        let rest = segments(key.drop_first());
        rest.update(0, seq![key[0]] + rest[0])
    }
}

/// The place of the first member named `key`, if any.
pub open spec fn first_index(m: Seq<(Seq<char>, NodeView)>, key: Seq<char>) -> Option<int>
    decreases m.len(),
{
    if m.len() == 0 {
        None
    } else if m[0].0 == key {
        Some(0)
    } else {
        match first_index(m.drop_first(), key) {
            Some(i) => Some(i + 1),
            None => None,
        }
    }
}

/// The value of the first member named `key`, if any.
pub open spec fn member(m: Seq<(Seq<char>, NodeView)>, key: Seq<char>) -> Option<NodeView> {
    match first_index(m, key) {
        Some(i) => Some(m[i].1),
        None => None,
    }
}

/// The members with `key` set to `value`: the first member of that name
/// given the value in its place, or a new member at the end.
pub open spec fn put(m: Seq<(Seq<char>, NodeView)>, key: Seq<char>, value: NodeView) -> Seq<(Seq<char>, NodeView)> {
    match first_index(m, key) {
        Some(i) => m.update(i, (key, value)),
        None => m.push((key, value)),
    }
}

/// What `path` reaches from `n`: each segment names a member of the object
/// reached so far; where there is no such member, or no object, the read
/// gives null.
pub open spec fn get_path(n: NodeView, path: Seq<Seq<char>>) -> NodeView
    decreases path.len(),
{
    if path.len() == 0 {
        n
    } else {
        match n {
            NodeView::Object(m) => match member(m, path[0]) {
                Some(c) => get_path(c, path.drop_first()),
                None => null(),
            },
            NodeView::Leaf(_) => null(),
        }
    }
}

/// `n` with `value` written where `path` leads: a node that is not an
/// object becomes an empty one first, and a missing member on the way is
/// made an empty object.
pub open spec fn set_path(n: NodeView, path: Seq<Seq<char>>, value: NodeView) -> NodeView
    decreases path.len(),
{
    let m = match n {
        NodeView::Object(m) => m,
        NodeView::Leaf(_) => Seq::empty(),
    };
    if path.len() == 0 {
        value
    } else if path.len() == 1 {
        NodeView::Object(put(m, path[0], value))
    } else {
        let child = match member(m, path[0]) {
            Some(c) => c,
            None => NodeView::Object(Seq::empty()),
        };
        NodeView::Object(put(m, path[0], set_path(child, path.drop_first(), value)))
    }
}

proof fn lemma_members_view(m: Seq<(String, Node)>)
    ensures
        members_view(m).len() == m.len(),
        forall|i: int| 0 <= i < m.len() ==> #[trigger] members_view(m)[i] == (m[i].0@, node_view(m[i].1)),
    decreases m.len(),
{
    if m.len() > 0 {
        lemma_members_view(m.drop_last());
    }
}

proof fn lemma_first_index(m: Seq<(Seq<char>, NodeView)>, key: Seq<char>)
    ensures
        match first_index(m, key) {
            Some(i) => 0 <= i < m.len() && m[i].0 == key && forall|j: int| 0 <= j < i ==> m[j].0 != key,
            None => forall|j: int| 0 <= j < m.len() ==> m[j].0 != key,
        },
    decreases m.len(),
{
    if m.len() > 0 && m[0].0 != key {
        lemma_first_index(m.drop_first(), key);
        assert forall|j: int| 0 < j < m.len() implies m[j] == m.drop_first()[j - 1] by {}
    }
}

proof fn lemma_first_index_at(m: Seq<(Seq<char>, NodeView)>, key: Seq<char>, i: int)
    requires
        0 <= i < m.len(),
        m[i].0 == key,
        forall|j: int| 0 <= j < i ==> m[j].0 != key,
    ensures
        first_index(m, key) == Some(i),
    decreases i,
{
    if i > 0 {
        lemma_first_index_at(m.drop_first(), key, i - 1);
    }
}

proof fn lemma_first_index_none(m: Seq<(Seq<char>, NodeView)>, key: Seq<char>)
    requires
        forall|j: int| 0 <= j < m.len() ==> m[j].0 != key,
    ensures
        first_index(m, key) is None,
    decreases m.len(),
{
    if m.len() > 0 {
        lemma_first_index_none(m.drop_first(), key);
    }
}

/// A member just put reads back, and putting one leaves each member of
/// another name as it was.
proof fn lemma_put_member(m: Seq<(Seq<char>, NodeView)>, key: Seq<char>, value: NodeView, other: Seq<char>)
    ensures
        member(put(m, key, value), key) == Some(value),
        other != key ==> member(put(m, key, value), other) == member(m, other),
{
    lemma_first_index(m, key);
    lemma_first_index(m, other);
    let after = put(m, key, value);
    match first_index(m, key) {
        Some(i) => {
            lemma_first_index_at(after, key, i);
            if other != key {
                match first_index(m, other) {
                    Some(k) => lemma_first_index_at(after, other, k),
                    None => lemma_first_index_none(after, other),
                }
            }
        },
        None => {
            lemma_first_index_at(after, key, m.len() as int);
            if other != key {
                match first_index(m, other) {
                    Some(k) => lemma_first_index_at(after, other, k),
                    None => lemma_first_index_none(after, other),
                }
            }
        },
    }
}

proof fn lemma_segments_plain(key: Seq<char>)
    requires
        !key.contains('.'),
    ensures
        segments(key) == seq![key],
    decreases key.len(),
{
    if key.len() > 0 {
        assert(!key.drop_first().contains('.')) by {
            if key.drop_first().contains('.') {
                let j = choose|j: int| 0 <= j < key.drop_first().len() && key.drop_first()[j] == '.';
                assert(key[j + 1] == '.');
            }
        }
        lemma_segments_plain(key.drop_first());
        assert(key[0] != '.') by {
            if key[0] == '.' {
                assert(key.contains('.'));
            }
        }
        assert(seq![key[0]] + key.drop_first() =~= key);
        assert(segments(key)[0] =~= key);
        assert(segments(key) =~= seq![key]);
    } else {
        assert(key =~= Seq::<char>::empty());
    }
}

proof fn lemma_segments_split(before: Seq<char>, after: Seq<char>)
    requires
        !before.contains('.'),
    ensures
        segments(before + seq!['.'] + after) == seq![before] + segments(after),
    decreases before.len(),
{
    let key = before + seq!['.'] + after;
    if before.len() == 0 {
        assert(key.drop_first() =~= after);
        assert(before =~= Seq::<char>::empty());
        assert(key[0] == '.');
        assert(segments(key) =~= seq![before] + segments(after));
    } else {
        assert(!before.drop_first().contains('.')) by {
            if before.drop_first().contains('.') {
                let j = choose|j: int| 0 <= j < before.drop_first().len() && before.drop_first()[j] == '.';
                assert(before[j + 1] == '.');
            }
        }
        lemma_segments_split(before.drop_first(), after);
        assert(key.drop_first() =~= before.drop_first() + seq!['.'] + after);
        assert(key[0] == before[0]);
        assert(key[0] != '.') by {
            if before[0] == '.' {
                assert(before.contains('.'));
            }
        }
        assert(seq![before[0]] + before.drop_first() =~= before);
        assert(segments(key) =~= seq![before] + segments(after));
    }
}

proof fn lemma_segments_nonempty(key: Seq<char>)
    ensures
        segments(key).len() >= 1,
    decreases key.len(),
{
    if key.len() > 0 {
        lemma_segments_nonempty(key.drop_first());
    }
}

/// A nested value reads back as it was written: after `value` is set at a
/// dotted key, reading that key gives `value`.
pub proof fn law_nested_set_then_get(root: NodeView, key: Seq<char>, value: NodeView)
    ensures
        get_path(set_path(root, segments(key), value), segments(key)) == value,
{
    lemma_segments_nonempty(key);
    lemma_set_then_get(root, segments(key), value);
}

proof fn lemma_set_then_get(n: NodeView, path: Seq<Seq<char>>, value: NodeView)
    requires
        path.len() >= 1,
    ensures
        get_path(set_path(n, path, value), path) == value,
    decreases path.len(),
{
    let m = match n {
        NodeView::Object(m) => m,
        NodeView::Leaf(_) => Seq::empty(),
    };
    if path.len() == 1 {
        lemma_put_member(m, path[0], value, path[0]);
        assert(path.drop_first().len() == 0);
    } else {
        let child = match member(m, path[0]) {
            Some(c) => c,
            None => NodeView::Object(Seq::empty()),
        };
        let inner = set_path(child, path.drop_first(), value);
        lemma_put_member(m, path[0], inner, path[0]);
        lemma_set_then_get(child, path.drop_first(), value);
    }
}

/// Writing at one dotted key leaves what any key with another first
/// segment reads as it was.
pub proof fn law_nested_set_keeps_others(root: NodeView, key: Seq<char>, other: Seq<char>, value: NodeView)
    requires
        segments(key)[0] != segments(other)[0],
    ensures
        get_path(set_path(root, segments(key), value), segments(other)) == get_path(root, segments(other)),
{
    lemma_segments_nonempty(key);
    lemma_segments_nonempty(other);
    let path = segments(key);
    let m = match root {
        NodeView::Object(m) => m,
        NodeView::Leaf(_) => Seq::empty(),
    };
    let written = if path.len() == 1 {
        value
    } else {
        let child = match member(m, path[0]) {
            Some(c) => c,
            None => NodeView::Object(Seq::empty()),
        };
        set_path(child, path.drop_first(), value)
    };
    lemma_put_member(m, path[0], written, segments(other)[0]);
    match root {
        NodeView::Object(_) => {},
        NodeView::Leaf(_) => {
            lemma_first_index_none(m, segments(other)[0]);
        },
    }
}

fn null_node() -> (r: Node)
    ensures
        r@ == null(),
{
    Node::Leaf("null".to_owned())
}

/// A copy of `n`.
pub fn copy_node(n: &Node) -> (r: Node)
    ensures
        r@ == n@,
    decreases n,
{
    match n {
        Node::Leaf(t) => Node::Leaf(t.clone()),
        Node::Object(m) => {
            let mut out: Vec<(String, Node)> = Vec::new();
            let mut i: usize = 0;
            while i < m.len()
                invariant
                    i <= m.len(),
                    *n == Node::Object(*m),
                    members_view(out@) == members_view(m@.take(i as int)),
                decreases m.len() - i,
            {
                proof {
                    assert(decreases_to!(*n => (*n)->Object_0));
                    assert(decreases_to!(*m => m@));
                    assert(decreases_to!(m@ => m@[i as int]));
                    assert(decreases_to!(m@[i as int] => m@[i as int].1));
                }
                let c = copy_node(&m[i].1);
                let k = m[i].0.clone();
                let ghost before = out@;
                out.push((k, c));
                proof {
                    assert(out@.drop_last() =~= before);
                    assert(m@.take(i + 1).drop_last() =~= m@.take(i as int));
                }
                i = i + 1;
            }
            assert(m@.take(m.len() as int) =~= m@);
            Node::Object(out)
        },
    }
}

/// The segments of `key`, split at every dot.
pub fn key_path(key: &str) -> (r: Vec<String>)
    ensures
        texts(r@) == segments(key@),
    decreases key@.len(),
{
    match split_once(key, '.') {
        Some((before, after)) => {
            proof {
                lemma_segments_split(before@, after@);
            }
            let mut rest = key_path(after);
            let mut r: Vec<String> = Vec::new();
            r.push(before.to_owned());
            let ghost head = r@;
            let ghost tail = rest@;
            r.append(&mut rest);
            assert(texts(r@) =~= texts(head) + texts(tail));
            r
        },
        None => {
            proof {
                lemma_segments_plain(key@);
            }
            let mut r: Vec<String> = Vec::new();
            r.push(key.to_owned());
            assert(texts(r@) =~= seq![key@]);
            r
        },
    }
}

/// The place of the first member of `m` named `key`.
fn find_member(m: &Vec<(String, Node)>, key: &str) -> (r: Option<usize>)
    ensures
        match r {
            Some(j) => Some(j as int),
            None => None,
        } == first_index(members_view(m@), key@),
        match r {
            Some(j) => j < m.len(),
            None => true,
        },
{
    proof {
        lemma_members_view(m@);
    }
    let mut i: usize = 0;
    while i < m.len()
        invariant
            i <= m.len(),
            members_view(m@).len() == m@.len(),
            forall|j: int| 0 <= j < m.len() ==> #[trigger] members_view(m@)[j] == (m@[j].0@, node_view(m@[j].1)),
            forall|j: int| 0 <= j < i ==> members_view(m@)[j].0 != key@,
        decreases m.len() - i,
    {
        if str_eq(m[i].0.as_str(), key) {
            proof {
                lemma_first_index_at(members_view(m@), key@, i as int);
            }
            return Some(i);
        }
        i = i + 1;
    }
    proof {
        lemma_first_index_none(members_view(m@), key@);
    }
    None
}

/// The value at a dotted key of `value`: each segment names a member of
/// the object reached so far, and a missing member, or a value that is not
/// an object, gives null.
pub fn get_nested(value: &Node, key: &str) -> (r: Node)
    ensures
        r@ == get_path(value@, segments(key@)),
{
    let path = key_path(key);
    let ghost p = texts(path@);
    let mut cur: &Node = value;
    let mut i: usize = 0;
    assert(p.skip(0) =~= p);
    while i < path.len()
        invariant
            i <= path.len(),
            p == texts(path@),
            p == segments(key@),
            get_path(value@, p) == get_path(cur@, p.skip(i as int)),
        decreases path.len() - i,
    {
        let ghost s = p.skip(i as int);
        assert(s[0] == path@[i as int]@);
        assert(s.drop_first() =~= p.skip(i + 1));
        match cur {
            Node::Object(m) => {
                proof {
                    lemma_members_view(m@);
                }
                match find_member(m, path[i].as_str()) {
                    Some(j) => {
                        cur = &m[j].1;
                    },
                    None => {
                        return null_node();
                    },
                }
            },
            Node::Leaf(_) => {
                return null_node();
            },
        }
        i = i + 1;
    }
    assert(p.skip(path.len() as int).len() == 0);
    copy_node(cur)
}

/// `root` with `value` written at the dotted key `key`.
pub fn set_nested(root: &mut Node, key: &str, value: Node)
    ensures
        final(root)@ == set_path(old(root)@, segments(key@), value@),
{
    let path = key_path(key);
    proof {
        lemma_segments_nonempty(key@);
    }
    let mut previous = Node::Leaf(String::new());
    std::mem::swap(&mut previous, root);
    *root = set_at(previous, &path, 0, value);
    assert(texts(path@).skip(0) =~= texts(path@));
}

fn set_at(root: Node, path: &Vec<String>, i: usize, value: Node) -> (r: Node)
    requires
        i < path.len(),
    ensures
        r@ == set_path(root@, texts(path@).skip(i as int), value@),
    decreases path.len() - i,
{
    let ghost s = texts(path@).skip(i as int);
    let ghost n = root@;
    let mut m: Vec<(String, Node)> = match root {
        Node::Object(m) => m,
        Node::Leaf(_) => Vec::new(),
    };
    let ghost before = m@;
    proof {
        lemma_members_view(before);
        assert(s[0] == path@[i as int]@);
        assert(s.drop_first() =~= texts(path@).skip(i + 1));
        assert(members_view(before) == match n {
            NodeView::Object(mv) => mv,
            NodeView::Leaf(_) => Seq::<(Seq<char>, NodeView)>::empty(),
        });
    }
    let found = find_member(&m, path[i].as_str());
    let last = i + 1 == path.len();
    match found {
        Some(j) => {
            let (k, c) = m.remove(j);
            let written = if last {
                value
            } else {
                set_at(c, path, i + 1, value)
            };
            m.insert(j, (k, written));
            proof {
                lemma_first_index(members_view(before), path@[i as int]@);
                assert(m@ =~= before.update(j as int, m@[j as int]));
                lemma_members_view(m@);
                assert(members_view(m@) =~= members_view(before).update(j as int, (s[0], written@)));
            }
        },
        None => {
            let written = if last {
                value
            } else {
                set_at(Node::Object(Vec::new()), path, i + 1, value)
            };
            proof {
                assert(members_view(Seq::<(String, Node)>::empty()) =~= Seq::<(Seq<char>, NodeView)>::empty());
            }
            m.push((path[i].clone(), written));
            proof {
                assert(m@.drop_last() =~= before);
            }
        },
    }
    Node::Object(m)
}

} // verus!
