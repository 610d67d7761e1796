//! A registry of devices keyed by path: a trie whose edges are the path's
//! characters, with the device stored at the node the path ends on.
use vstd::prelude::*;

verus! {

/// A registered device: a numeric identifier, a path and an address.
#[derive(Debug)]
pub struct IoTDevice {
    pub numerical_id: u64,
    pub path: String,
    pub address: String,
}

impl Clone for IoTDevice {
    /// An equal copy of the record.
    fn clone(&self) -> (r: Self)
        ensures
            r == *self,
    {
        IoTDevice {
            numerical_id: self.numerical_id,
            path: self.path.clone(),
            address: self.address.clone(),
        }
    }
}

impl IoTDevice {
    /// A device record from its parts.
    pub fn new(id: u64, address: String, path: String) -> (r: IoTDevice)
        ensures
            r.numerical_id == id,
            r.address == address,
            r.path == path,
    {
        IoTDevice { address, numerical_id: id, path }
    }
}

/// A trie node: the character of its incoming edge, the children keyed by
/// their characters, and the device of the path ending here, if any.
pub struct Node {
    pub key: char,
    pub(crate) children: Vec<(char, Box<Node>)>,
    pub value: Option<IoTDevice>,
}

/// The children list of a node.
pub open(crate) spec fn children_of(n: Box<Node>) -> Seq<(char, Box<Node>)> {
    n.children@
}

/// The edge character of a node.
pub open(crate) spec fn key_of(n: Box<Node>) -> char {
    n.key
}

/// The stored device of a node.
pub open(crate) spec fn stored_of(n: Box<Node>) -> Option<IoTDevice> {
    n.value
}

/// The copied value of an optional borrowed device.
pub open(crate) spec fn opt_copy(h: Option<&IoTDevice>) -> Option<IoTDevice> {
    match h {
        Option::Some(d) => Option::Some(*d),
        Option::None => Option::None,
    }
}

/// The walk down a trie, scanning the children from slot `k` for the first
/// edge carrying `rest`'s first character.  `here` is the device stored at
/// the node whose children these are: the walk stops and answers `here`
/// when the path is consumed or no edge continues it, so a path resolves
/// to the device of its deepest matched node.
pub open(crate) spec fn descend_from(
    children: Seq<(char, Box<Node>)>,
    k: int,
    rest: Seq<char>,
    here: Option<IoTDevice>,
) -> Option<IoTDevice>
    decreases children, rest.len(), children.len() - k,
{
    if rest.len() == 0 || k < 0 || k >= children.len() {
        here
    } else if children[k].0 == rest[0] {
        descend_from(children[k].1.children@, 0, rest.drop_first(), children[k].1.value)
    } else {
        descend_from(children, k + 1, rest, here)
    }
}

/// Scanning past slots that do not carry the first character does not
/// change where the walk goes.
proof fn lemma_descend_skip(
    children: Seq<(char, Box<Node>)>,
    k: int,
    rest: Seq<char>,
    here: Option<IoTDevice>,
)
    requires
        rest.len() > 0,
        0 <= k <= children.len(),
        forall|j: int| 0 <= j < k ==> children[j].0 != rest[0],
    ensures
        descend_from(children, 0, rest, here) == descend_from(children, k, rest, here),
    decreases k,
{
    if k > 0 {
        lemma_descend_skip(children, k - 1, rest, here);
        assert(children[k - 1].0 != rest[0]);
    }
}

/// The registry: the children of the unnamed root, and how many paths were
/// added.
pub struct BestDeviceRegistry {
    pub length: u64,
    pub(crate) root: Vec<(char, Box<Node>)>,
}

impl Node {
    /// A node for the edge `key`, holding `device` if the path ends here.
    pub fn new(key: char, device: Option<IoTDevice>) -> (r: Box<Node>)
        ensures
            key_of(r) == key,
            stored_of(r) == device,
            children_of(r).len() == 0,
    {
        Box::new(Node { key, children: Vec::new(), value: device })
    }
}

impl BestDeviceRegistry {
    /// The children of the unnamed root.
    pub open(crate) spec fn root_children(&self) -> Seq<(char, Box<Node>)> {
        self.root@
    }

    /// The number of paths added so far.
    pub open(crate) spec fn spec_length(&self) -> u64 {
        self.length
    }

    /// What a walk down `path` finds: the device at the deepest matched
    /// node, so a path may resolve to the device of its deepest stored
    /// prefix.  An empty path, or a first character with no edge, finds
    /// nothing.
    pub open(crate) spec fn spec_find(&self, path: Seq<char>) -> Option<IoTDevice> {
        if path.len() == 0 {
            Option::None
        } else {
            descend_from(self.root@, 0, path, Option::None)
        }
    }

    /// An empty registry.
    pub fn new_empty() -> (r: BestDeviceRegistry)
        ensures
            r.spec_length() == 0,
            r.root_children().len() == 0,
    {
        BestDeviceRegistry { length: 0, root: Vec::new() }
    }

    /// Store `device` at the end of its own path.  A device with an empty
    /// path is not stored; otherwise the path count rises by one, whether
    /// or not the path was present.
    pub fn add(&mut self, device: IoTDevice)
        requires
            old(self).spec_length() < u64::MAX,
        ensures
            device.path@.len() == 0 ==> *final(self) == *old(self),
            device.path@.len() > 0 ==> final(self).spec_length() == old(self).spec_length() + 1
                && final(self).spec_find(device.path@) == Option::Some(device),
    {
        let path = chars_of(&device.path);
        if path.len() > 0 {
            self.length = self.length + 1;
            let mut root = Vec::new();
            std::mem::swap(&mut root, &mut self.root);
            let ghost whole = path@;
            add_to(&mut root, &path, 0, device);
            self.root = root;
            proof {
                assert(whole.skip(0) =~= whole);
            }
        }
    }

    /// The device at the deepest node the path's characters reach — the
    /// one stored exactly there, or under the deepest stored prefix.
    pub fn find(&self, path: &String) -> (r: Option<IoTDevice>)
        ensures
            r == self.spec_find(path@),
    {
        let chars = chars_of(path);
        if chars.len() == 0 {
            return Option::None;
        }
        let r = find_in(&self.root, &chars, 0, Option::None);
        proof {
            assert(chars@.skip(0) =~= chars@);
        }
        r
    }

    /// Hand every stored device, bottom-up within each subtree, to the
    /// callback.
    pub fn walk<F: Fn(&IoTDevice)>(&self, callback: F)
        requires
            forall|d: &IoTDevice| callback.requires((d,)),
    {
        let n = self.root.len();
        let mut i: usize = 0;
        while i < n
            invariant
                n == self.root@.len(),
                forall|d: &IoTDevice| callback.requires((d,)),
            decreases n - i,
        {
            walk_node(&self.root[i].1, &callback);
            i = i + 1;
        }
    }
}

/// The characters of a string, in order.
fn chars_of(s: &String) -> (r: Vec<char>)
    ensures
        r@ == s@,
{
    let mut out: Vec<char> = Vec::new();
    let n = s.as_str().unicode_len();
    let mut i: usize = 0;
    while i < n
        invariant
            n == s@.len(),
            i <= n,
            out@ == s@.take(i as int),
        decreases n - i,
    {
        let c = s.as_str().get_char(i);
        out.push(c);
        proof {
            assert(out@ =~= s@.take(i + 1));
        }
        i = i + 1;
    }
    proof {
        assert(s@.take(n as int) =~= s@);
    }
    out
}

/// The index of the child carrying `c`, if one exists.
fn child_index(children: &Vec<(char, Box<Node>)>, c: char) -> (r: Option<usize>)
    ensures
        match r {
            Option::Some(i) => i < children@.len() && children@[i as int].0 == c && forall|
                j: int,
            |
                0 <= j < i ==> children@[j].0 != c,
            Option::None => forall|i: int| 0 <= i < children@.len() ==> children@[i].0 != c,
        },
{
    let n = children.len();
    let mut i: usize = 0;
    while i < n
        invariant
            n == children@.len(),
            i <= n,
            forall|j: int| 0 <= j < i ==> children@[j].0 != c,
        decreases n - i,
    {
        if children[i].0 == c {
            return Option::Some(i);
        }
        i = i + 1;
    }
    Option::None
}

/// Walk the children lists along `path` from position `at`; `here` is the
/// device at the node already reached.
fn find_in(
    children: &Vec<(char, Box<Node>)>,
    path: &Vec<char>,
    at: usize,
    here: Option<&IoTDevice>,
) -> (r: Option<IoTDevice>)
    requires
        at <= path@.len(),
    ensures
        r == descend_from(children@, 0, path@.skip(at as int), opt_copy(here)),
    decreases path@.len() - at,
{
    let ghost p = path@.skip(at as int);
    let n = path.len();
    if at == n {
        proof {
            assert(p.len() == 0);
        }
        return clone_opt(here);
    }
    proof {
        assert(p[0] == path@[at as int]);
    }
    let found = child_index(children, path[at]);
    match found {
        Option::None => {
            proof {
                lemma_descend_skip(children@, children@.len() as int, p, opt_copy(here));
            }
            clone_opt(here)
        },
        Option::Some(i) => {
            proof {
                lemma_descend_skip(children@, i as int, p, opt_copy(here));
            }
            let node = &children[i].1;
            let down = match &node.value {
                Option::Some(d) => Option::Some(d),
                Option::None => Option::None,
            };
            let r = find_in(&node.children, path, at + 1, down);
            proof {
                assert(p.drop_first() =~= path@.skip(at + 1));
            }
            r
        },
    }
}

/// A copy of an optional borrowed device.
fn clone_opt(h: Option<&IoTDevice>) -> (r: Option<IoTDevice>)
    ensures
        r == opt_copy(h),
{
    match h {
        Option::Some(d) => Option::Some(d.clone()),
        Option::None => Option::None,
    }
}

/// Descend along `path` from position `at`, building missing nodes, and
/// store `device` at the end, where every walk along the full path lands.
fn add_to(children: &mut Vec<(char, Box<Node>)>, path: &Vec<char>, at: usize, device: IoTDevice)
    requires
        at < path@.len(),
    ensures
        forall|h: Option<IoTDevice>|
            #[trigger] descend_from(final(children)@, 0, path@.skip(at as int), h)
                == Option::Some(device),
    decreases path@.len() - at,
{
    let ghost p = path@.skip(at as int);
    let n = path.len();
    proof {
        assert(p[0] == path@[at as int]);
    }
    let c = path[at];
    let found = child_index(children, c);
    let i = match found {
        Option::Some(i) => i,
        Option::None => {
            children.push((c, Node::new(c, Option::None)));
            proof {
                assert(forall|j: int|
                    0 <= j < children@.len() - 1 ==> children@[j].0 != p[0]);
            }
            children.len() - 1
        },
    };
    let ghost scan_stop = i as int;
    let mut entry = (c, Node::new(c, Option::None));
    std::mem::swap(&mut entry, &mut children[i]);
    let (_key, mut node) = entry;
    if at + 1 == n {
        node.value = Option::Some(device);
        children.set(i, (c, node));
        proof {
            assert(p.len() == 1);
            assert(p.drop_first().len() == 0);
            assert forall|h: Option<IoTDevice>|
                #[trigger] descend_from(children@, 0, p, h) == Option::Some(device) by {
                lemma_descend_skip(children@, scan_stop, p, h);
                assert(children@[scan_stop].0 == p[0]);
                assert(descend_from(children@, scan_stop, p, h) == descend_from(
                    children@[scan_stop].1.children@,
                    0,
                    p.drop_first(),
                    children@[scan_stop].1.value,
                ));
                assert(descend_from(
                    children@[scan_stop].1.children@,
                    0,
                    p.drop_first(),
                    children@[scan_stop].1.value,
                ) == children@[scan_stop].1.value);
            }
        }
    } else {
        let mut inner = Vec::new();
        std::mem::swap(&mut inner, &mut node.children);
        add_to(&mut inner, path, at + 1, device);
        node.children = inner;
        children.set(i, (c, node));
        proof {
            assert(p.drop_first() =~= path@.skip(at + 1));
            assert forall|h: Option<IoTDevice>|
                #[trigger] descend_from(children@, 0, p, h) == Option::Some(device) by {
                lemma_descend_skip(children@, scan_stop, p, h);
                assert(children@[scan_stop].0 == p[0]);
                assert(descend_from(children@, scan_stop, p, h) == descend_from(
                    children@[scan_stop].1.children@,
                    0,
                    p.drop_first(),
                    children@[scan_stop].1.value,
                ));
                assert(descend_from(
                    children@[scan_stop].1.children@,
                    0,
                    path@.skip(at + 1),
                    children@[scan_stop].1.value,
                ) == Option::Some(device));
            }
        }
    }
}

/// The bottom-up walk of one subtree.
fn walk_node<F: Fn(&IoTDevice)>(node: &Box<Node>, callback: &F)
    requires
        forall|d: &IoTDevice| callback.requires((d,)),
    decreases *node,
{
    let n = node.children.len();
    let mut i: usize = 0;
    while i < n
        invariant
            n == node.children@.len(),
            forall|d: &IoTDevice| callback.requires((d,)),
        decreases n - i,
    {
        walk_node(&node.children[i].1, callback);
        i = i + 1;
    }
    match &node.value {
        Option::Some(dev) => {
            callback(dev);
        },
        Option::None => {},
    }
}

} // verus!
