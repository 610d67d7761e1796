//! A registry of devices ordered by identifier: a red-black tree carries
//! the distinct identifiers, a side store carries every record handed in —
//! duplicates included — and walks hand the records out ascending by
//! identifier.
use vstd::prelude::*;
use crate::red_black_tree::Tree;
use crate::trie::IoTDevice;

verus! {

/// The tree's key for an identifier: the sign bit is flipped, which maps
/// the unsigned order onto the signed keys — distinct identifiers stay
/// distinct and their order carries over.
pub open(crate) spec fn enc_key(id: u64) -> i64 {
    (id ^ 0x8000000000000000u64) as i64
}

/// The keys of a sequence of device records.
pub open(crate) spec fn dev_keys(devs: Seq<IoTDevice>) -> Seq<i64> {
    devs.map_values(|d: IoTDevice| enc_key(d.numerical_id))
}

/// The set of those keys.
pub open(crate) spec fn ids_of(devs: Seq<IoTDevice>) -> Set<i64> {
    dev_keys(devs).to_set()
}

/// A device registry over a red-black tree of identifier keys.
pub struct BetterDeviceRegistry {
    pub(crate) tree: Tree,
    pub(crate) devices: Vec<IoTDevice>,
}

impl BetterDeviceRegistry {
    /// The tree's keys are exactly the keys of the stored records.
    #[verifier::type_invariant]
    pub open(crate) spec fn well_formed(self) -> bool {
        self.tree@ == ids_of(self.devices@)
    }

    /// The stored records, in the order they arrived.
    pub open(crate) spec fn records(&self) -> Seq<IoTDevice> {
        self.devices@
    }

    /// The identifier tree, for the diagnostic exporter.
    pub open(crate) spec fn tree_of(&self) -> Tree {
        self.tree
    }

    /// An empty registry.
    pub fn new_empty() -> (r: BetterDeviceRegistry)
        ensures
            r.records().len() == 0,
    {
        let t0 = Tree::new();
        let d0: Vec<IoTDevice> = Vec::new();
        proof {
            assert(ids_of(d0@) =~= Set::<i64>::empty());
        }
        BetterDeviceRegistry { tree: t0, devices: d0 }
    }

    /// The tree's diagnostic graph description, over the identifier keys.
    pub fn display(&self) -> (r: String)
        ensures
            r@ == self.tree_of().display_view(),
    {
        self.tree.display()
    }

    /// Store `device`; every call keeps its record, a repeated identifier
    /// included.
    pub fn add(&mut self, device: IoTDevice)
        requires
            old(self).records().len() < usize::MAX,
        ensures
            final(self).records() == old(self).records().push(device),
    {
        proof {
            use_type_invariant(&*self);
            dev_keys(self.devices@).lemma_cardinality_of_set();
        }
        let id = encode_id(device.numerical_id);
        let t0 = Tree::new();
        let d0: Vec<IoTDevice> = Vec::new();
        proof {
            assert(ids_of(d0@) =~= Set::<i64>::empty());
        }
        let mut tmp = BetterDeviceRegistry { tree: t0, devices: d0 };
        std::mem::swap(self, &mut tmp);
        let BetterDeviceRegistry { mut tree, mut devices } = tmp;
        let ghost devs = devices@;
        let _added = tree.put(id);
        devices.push(device);
        proof {
            let keys = dev_keys(devs);
            let keys2 = dev_keys(devices@);
            assert(keys2 =~= keys.push(id));
            assert forall|y: i64| keys2.to_set().contains(y) implies keys.to_set().contains(y)
                || y == id by {
                let i = keys2.index_of(y);
                assert(keys2[i] == y);
                if i < keys.len() {
                    assert(keys[i] == y);
                }
            }
            assert forall|y: i64| keys.to_set().contains(y) implies keys2.to_set().contains(
                y,
            ) by {
                let i = keys.index_of(y);
                assert(keys2[i] == y);
            }
            assert(keys2.to_set().contains(id)) by {
                assert(keys2[keys2.len() - 1] == id);
            }
            assert(ids_of(devices@) =~= ids_of(devs).insert(id));
            if ids_of(devs).contains(id) {
                assert(ids_of(devs).insert(id) =~= ids_of(devs));
            }
        }
        *self = BetterDeviceRegistry { tree, devices };
    }

    /// Whether the identifier tree satisfies the red-black shape — which
    /// it always does, the empty tree included.
    pub fn is_a_valid_red_black_tree(&self) -> (r: bool)
        ensures
            r,
    {
        proof {
            use_type_invariant(self);
        }
        if self.devices.len() == 0 {
            return true;
        }
        let r = self.tree.helper_is_a_valid_red_black_tree();
        proof {
            broadcast use vstd::seq_lib::seq_to_set_is_finite;

            let keys = dev_keys(self.devices@);
            assert(keys.to_set().contains(keys[0])) by {
                assert(keys[0] == keys[0]);
            }
            vstd::set_lib::lemma_set_empty_equivalency_len(self.tree@);
        }
        r
    }

    /// A record stored under `numerical_id` — the earliest, when repeats
    /// share it — if there is one.
    pub fn find(&self, numerical_id: u64) -> (r: Option<IoTDevice>)
        ensures
            match r {
                Option::Some(d) => exists|i: int|
                    0 <= i < self.records().len() && #[trigger] self.records()[i] == d
                        && d.numerical_id == numerical_id,
                Option::None => forall|i: int|
                    0 <= i < self.records().len() ==> #[trigger] self.records()[i].numerical_id
                        != numerical_id,
            },
    {
        let n = self.devices.len();
        let mut i: usize = 0;
        while i < n
            invariant
                n == self.devices@.len(),
                i <= n,
                forall|j: int|
                    0 <= j < i ==> #[trigger] self.devices@[j].numerical_id != numerical_id,
            decreases n - i,
        {
            if self.devices[i].numerical_id == numerical_id {
                proof {
                    assert(self.records()[i as int] == self.devices@[i as int]);
                }
                return Option::Some(self.devices[i].clone());
            }
            i = i + 1;
        }
        Option::None
    }

    /// Hand every record to the callback, ascending by identifier; records
    /// sharing an identifier come grouped, in the order they arrived.
    pub fn walk<F: Fn(&IoTDevice)>(&self, callback: F)
        requires
            forall|d: &IoTDevice| callback.requires((d,)),
    {
        proof {
            use_type_invariant(self);
        }
        let ids = self.tree.depth_first_values_in_order();
        let n = ids.len();
        let mut k: usize = 0;
        while k < n
            invariant
                n == ids@.len(),
                forall|d: &IoTDevice| callback.requires((d,)),
            decreases n - k,
        {
            let id = ids[k];
            let m = self.devices.len();
            let mut i: usize = 0;
            while i < m
                invariant
                    m == self.devices@.len(),
                    forall|d: &IoTDevice| callback.requires((d,)),
                decreases m - i,
            {
                if encode_id(self.devices[i].numerical_id) == id {
                    callback(&self.devices[i]);
                }
                i = i + 1;
            }
            k = k + 1;
        }
    }
}

/// The executable sign-bit flip behind `enc_key`.
fn encode_id(id: u64) -> (r: i64)
    ensures
        r == enc_key(id),
{
    #[verifier::truncate] ((id ^ 0x8000000000000000u64) as i64)
}

} // verus!
