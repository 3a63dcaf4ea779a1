use vstd::prelude::*;

use crate::bit::BitReader;
use crate::error::Error;
use crate::hevc::nal::un_nal;
use crate::hevc::nal::unescape;
use crate::hevc::pps::pps_spec;
use crate::hevc::sps::sps_spec;
use crate::hevc::pps;
use crate::hevc::pps::PicParamSet;
use crate::hevc::sps;
use crate::hevc::sps::SeqParamSet;
use crate::hevc::NAL_PPS_NUT;
use crate::hevc::NAL_SPS_NUT;
use crate::mpeg::iprp::ItemPropertyAssociation;
use crate::mpeg::iprp::Nal;
use crate::mpeg::iprp::Property;
use crate::mpeg::iprp::RawProps;
use crate::mpeg::meta::load_meta;
use crate::mpeg::meta::load_spec;
use crate::mpeg::meta::meta_of_file;
use crate::mpeg::meta::RawMeta;
use crate::mpeg::Extent;
use crate::mpeg::FourCc;
use crate::mpeg::Item;
use crate::mpeg::ItemInfo;

verus! {

/// An item: what its `infe` box says of it, and where its bytes lie.
#[derive(Debug, Clone)]
pub struct ResolvedItem {
    pub info: ItemInfo,
    pub location: Item,
}

/// A property with the ids of the items that refer to it, and of those for
/// which it is essential, each id once.
#[derive(Debug, Clone)]
pub struct PropertyEntry {
    pub items: Vec<u32>,
    pub essential: Vec<u32>,
    pub property: Property,
}

/// Whether an `ipma` entry refers to the property at 1-based position `k`,
/// marked essential when `essential_only`.
pub open spec fn refers_to_where(entry: ItemPropertyAssociation, k: int, essential_only: bool) -> bool {
    exists|j: int|
        0 <= j < entry.associations@.len() && #[trigger] entry.associations@[j].property_index
            == k && (essential_only ==> entry.associations@[j].essential)
}

/// Whether an `ipma` entry refers to the property at 1-based position `k`.
pub open spec fn refers_to(entry: ItemPropertyAssociation, k: int) -> bool {
    refers_to_where(entry, k, false)
}

/// Whether every association of every entry names a position from 1 to `n`.
pub open spec fn indices_in_range(assocs: Seq<ItemPropertyAssociation>, n: int) -> bool {
    forall|i: int, j: int|
        0 <= i < assocs.len() && 0 <= j < assocs[i].associations@.len() ==> 1
            <= #[trigger] assocs[i].associations@[j].property_index <= n
}

/// Whether some entry for item `id` refers to the property at position `k`,
/// marked essential when `essential_only`.
pub open spec fn associated_where(
    assocs: Seq<ItemPropertyAssociation>,
    id: u32,
    k: int,
    essential_only: bool,
) -> bool {
    exists|i: int|
        0 <= i < assocs.len() && #[trigger] assocs[i].item_id == id && refers_to_where(
            assocs[i],
            k,
            essential_only,
        )
}

/// Whether some entry for item `id` refers to the property at position `k`.
pub open spec fn associated(assocs: Seq<ItemPropertyAssociation>, id: u32, k: int) -> bool {
    associated_where(assocs, id, k, false)
}

/// Whether an entry refers to the property at position `k`, marked
/// essential when `essential_only`.
fn entry_refers_to(entry: &ItemPropertyAssociation, k: u64, essential_only: bool) -> (r: bool)
    ensures
        r == refers_to_where(*entry, k as int, essential_only),
{
    let mut j: usize = 0;
    while j < entry.associations.len()
        invariant
            j <= entry.associations@.len(),
            forall|m: int|
                0 <= m < j ==> !(#[trigger] entry.associations@[m].property_index == k && (
                essential_only ==> entry.associations@[m].essential)),
        decreases entry.associations@.len() - j,
    {
        let a = entry.associations[j];
        if a.property_index as u64 == k && (!essential_only || a.essential) {
            return true;
        }
        j = j + 1;
    }
    false
}

fn contains_id(v: &Vec<u32>, id: u32) -> (r: bool)
    ensures
        r == v@.contains(id),
{
    let mut i: usize = 0;
    while i < v.len()
        invariant
            i <= v@.len(),
            forall|m: int| 0 <= m < i ==> v@[m] != id,
        decreases v@.len() - i,
    {
        if v[i] == id {
            return true;
        }
        i = i + 1;
    }
    false
}

/// The ids of the items whose entries in `assocs` refer to the property at
/// 1-based position `k`, marked essential when `essential_only`, each id
/// once, in the order the entries come.
fn items_referring(assocs: &Vec<ItemPropertyAssociation>, k: u64, essential_only: bool) -> (r: Vec<u32>)
    ensures
        r@.no_duplicates(),
        forall|id: u32| r@.contains(id) <==> associated_where(assocs@, id, k as int, essential_only),
{
    let mut items: Vec<u32> = Vec::new();
    let mut i: usize = 0;
    while i < assocs.len()
        invariant
            i <= assocs@.len(),
            items@.no_duplicates(),
            forall|id: u32|
                items@.contains(id) <==> exists|m: int|
                    0 <= m < i && #[trigger] assocs@[m].item_id == id && refers_to_where(assocs@[m], k as int, essential_only),
        decreases assocs@.len() - i,
    {
        let entry = &assocs[i];
        let ghost old_items = items@;
        let refers = entry_refers_to(entry, k, essential_only);
        let pushed = refers && !contains_id(&items, entry.item_id);
        if pushed {
            items.push(entry.item_id);
        }
        proof {
            let v = entry.item_id;
            assert forall|id: u32|
                items@.contains(id) <==> exists|m: int|
                    0 <= m < i + 1 && #[trigger] assocs@[m].item_id == id && refers_to_where(
                        assocs@[m],
                        k as int,
                        essential_only,
                    ) by {
                if pushed {
                    assert(items@ == old_items.push(v));
                    if items@.contains(id) {
                        let x = choose|x: int| 0 <= x < items@.len() && items@[x] == id;
                        if x < old_items.len() {
                            assert(old_items[x] == id);
                            assert(old_items.contains(id));
                        } else {
                            assert(assocs@[i as int].item_id == id);
                        }
                    }
                    if old_items.contains(id) {
                        let x = choose|x: int| 0 <= x < old_items.len() && old_items[x] == id;
                        assert(items@[x] == id);
                    }
                    if id == v {
                        assert(items@[old_items.len() as int] == id);
                    }
                } else {
                    assert(items@ == old_items);
                    if id == v && refers {
                        assert(old_items.contains(id));
                    }
                }
                if exists|m: int|
                    0 <= m < i + 1 && #[trigger] assocs@[m].item_id == id && refers_to_where(
                        assocs@[m],
                        k as int,
                        essential_only,
                    ) {
                    let m = choose|m: int|
                        0 <= m < i + 1 && #[trigger] assocs@[m].item_id == id && refers_to_where(
                            assocs@[m],
                            k as int,
                            essential_only,
                        );
                    if m < i {
                        assert(old_items.contains(id));
                    }
                }
            }
            assert(items@.no_duplicates());
        }
        i = i + 1;
    }
    items
}

/// The ids of the items whose entries in `assocs` refer to the property at
/// 1-based position `k`, each id once, in the order the entries come.
pub fn associated_items(assocs: &Vec<ItemPropertyAssociation>, k: u64) -> (r: Vec<u32>)
    ensures
        r@.no_duplicates(),
        forall|id: u32| r@.contains(id) <==> associated(assocs@, id, k as int),
{
    items_referring(assocs, k, false)
}

/// The ids of the items whose entries in `assocs` mark the property at
/// 1-based position `k` essential, each id once, in the order the entries
/// come.
pub fn essential_items(assocs: &Vec<ItemPropertyAssociation>, k: u64) -> (r: Vec<u32>)
    ensures
        r@.no_duplicates(),
        forall|id: u32| r@.contains(id) <==> associated_where(assocs@, id, k as int, true),
{
    items_referring(assocs, k, true)
}

/// Checks that every association names a position from 1 to `n`.
fn check_indices(assocs: &Vec<ItemPropertyAssociation>, n: usize) -> (r: bool)
    ensures
        r == indices_in_range(assocs@, n as int),
{
    let mut i: usize = 0;
    while i < assocs.len()
        invariant
            i <= assocs@.len(),
            forall|a: int, j: int|
                0 <= a < i && 0 <= j < assocs@[a].associations@.len() ==> 1
                    <= #[trigger] assocs@[a].associations@[j].property_index <= n,
        decreases assocs@.len() - i,
    {
        let entry = &assocs[i];
        let mut j: usize = 0;
        while j < entry.associations.len()
            invariant
                i < assocs@.len(),
                entry == assocs@[i as int],
                j <= entry.associations@.len(),
                forall|a: int, b: int|
                    0 <= a < i && 0 <= b < assocs@[a].associations@.len() ==> 1
                        <= #[trigger] assocs@[a].associations@[b].property_index <= n,
                forall|b: int|
                    0 <= b < j ==> 1 <= #[trigger] entry.associations@[b].property_index <= n,
            decreases entry.associations@.len() - j,
        {
            let index = entry.associations[j].property_index as usize;
            if index == 0 || index > n {
                return false;
            }
            j = j + 1;
        }
        i = i + 1;
    }
    true
}

/// Joins an `ipco` container with an `ipma` list: the property at each
/// position, with the items that refer to it. Fails with `Error::Structure`
/// when an association names position 0 or a position past the container.
pub fn resolve_properties(container: Vec<Property>, assocs: &Vec<ItemPropertyAssociation>) -> (r:
    Result<Vec<PropertyEntry>, Error>)
    ensures
        !indices_in_range(assocs@, container@.len() as int) ==> r == Err::<
            Vec<PropertyEntry>,
            Error,
        >(Error::Structure),
        indices_in_range(assocs@, container@.len() as int) ==> r is Ok,
        r is Ok ==> indices_in_range(assocs@, container@.len() as int),
        r is Ok ==> r->Ok_0@.len() == container@.len(),
        r is Ok ==> forall|k: int|
            0 <= k < container@.len() ==> (#[trigger] r->Ok_0@[k]).property == container@[k],
        r is Ok ==> forall|k: int|
            0 <= k < container@.len() ==> (#[trigger] r->Ok_0@[k]).items@.no_duplicates(),
        r is Ok ==> forall|k: int, id: u32|
            0 <= k < container@.len() ==> (#[trigger] r->Ok_0@[k].items@.contains(id)
                <==> associated(assocs@, id, k + 1)),
        r is Ok ==> forall|k: int|
            0 <= k < container@.len() ==> (#[trigger] r->Ok_0@[k]).essential@.no_duplicates(),
        r is Ok ==> forall|k: int, id: u32|
            0 <= k < container@.len() ==> (#[trigger] r->Ok_0@[k].essential@.contains(id)
                <==> associated_where(assocs@, id, k + 1, true)),
{
    let n = container.len();
    if !check_indices(assocs, n) {
        return Err(Error::Structure);
    }
    let ghost container_seq = container@;
    let mut rest = container;
    let mut props: Vec<PropertyEntry> = Vec::new();
    let mut k: usize = 0;
    while k < n
        invariant
            n == container_seq.len(),
            k <= n,
            rest@ == container_seq.subrange(k as int, n as int),
            props@.len() == k,
            forall|m: int| 0 <= m < k ==> (#[trigger] props@[m]).property == container_seq[m],
            forall|m: int| 0 <= m < k ==> (#[trigger] props@[m]).items@.no_duplicates(),
            forall|m: int, id: u32|
                0 <= m < k ==> (#[trigger] props@[m].items@.contains(id) <==> associated(
                    assocs@,
                    id,
                    m + 1,
                )),
            forall|m: int| 0 <= m < k ==> (#[trigger] props@[m]).essential@.no_duplicates(),
            forall|m: int, id: u32|
                0 <= m < k ==> (#[trigger] props@[m].essential@.contains(id) <==> associated_where(
                    assocs@,
                    id,
                    m + 1,
                    true,
                )),
        decreases n - k,
    {
        let property = rest.remove(0);
        let items = associated_items(assocs, (k + 1) as u64);
        let essential = essential_items(assocs, (k + 1) as u64);
        props.push(PropertyEntry { items, essential, property });
        k = k + 1;
        assert(rest@ =~= container_seq.subrange(k as int, n as int));
    }
    Ok(props)
}

/// Whether no two locators share an id.
fn locator_ids_distinct(locators: &Vec<Item>) -> (r: bool)
    ensures
        r == locator_ids_unique(locators@),
{
    let mut i: usize = 0;
    while i < locators.len()
        invariant
            i <= locators@.len(),
            forall|a: int, b: int|
                0 <= a < b < locators@.len() && a < i ==> (#[trigger] locators@[a]).id
                    != (#[trigger] locators@[b]).id,
        decreases locators@.len() - i,
    {
        let mut j: usize = i + 1;
        while j < locators.len()
            invariant
                i < locators@.len(),
                i + 1 <= j <= locators@.len(),
                forall|a: int, b: int|
                    0 <= a < b < locators@.len() && a < i ==> (#[trigger] locators@[a]).id
                        != (#[trigger] locators@[b]).id,
                forall|b: int| i < b < j ==> locators@[i as int].id != (#[trigger] locators@[b]).id,
            decreases locators@.len() - j,
        {
            if locators[i].id == locators[j].id {
                return false;
            }
            j = j + 1;
        }
        i = i + 1;
    }
    true
}

/// The one element of `v`: `Error::NotFound` when it is empty,
/// `Error::Structure` when it holds more than one.
fn get_only_element<T>(v: Vec<T>) -> (r: Result<T, Error>)
    ensures
        v@.len() == 0 ==> r == Err::<T, Error>(Error::NotFound),
        v@.len() > 1 ==> r == Err::<T, Error>(Error::Structure),
        v@.len() == 1 ==> r == Ok::<T, Error>(v@[0]),
{
    let mut v = v;
    if v.len() == 0 {
        return Err(Error::NotFound);
    }
    if v.len() > 1 {
        return Err(Error::Structure);
    }
    Ok(v.remove(0))
}

/// A HEIF file resolved into items and properties.
#[derive(Debug)]
pub struct Heif {
    handler: FourCc,
    primary_item: u32,
    items: Vec<ResolvedItem>,
    props: Vec<PropertyEntry>,
}

/// The item info entries of a list of resolved items.
pub open spec fn infos_of(items: Seq<ResolvedItem>) -> Seq<ItemInfo> {
    items.map_values(|it: ResolvedItem| it.info)
}

/// A property with the set of the items that refer to it and the set of
/// those for which it is essential.
pub open spec fn entry_view(e: PropertyEntry) -> (Property, Set<u32>, Set<u32>) {
    (e.property, e.items@.to_set(), e.essential@.to_set())
}

/// The properties of the container of an `iprp` box, each with the items
/// that the box's association list ties to it, and those it marks the
/// property essential for.
pub open spec fn resolved_props(rp: RawProps) -> Seq<(Property, Set<u32>, Set<u32>)> {
    let container = rp.containers@[0]@;
    let assocs = rp.associations@[0]@;
    Seq::new(
        container.len(),
        |k: int|
            (
                container[k],
                Set::new(|id: u32| associated(assocs, id, k + 1)),
                Set::new(|id: u32| associated_where(assocs, id, k + 1, true)),
            ),
    )
}

/// Whether every association of an `iprp` box names a property of its
/// container.
pub open spec fn associations_in_range(rp: RawProps) -> bool {
    indices_in_range(rp.associations@[0]@, rp.containers@[0]@.len() as int)
}

/// `Error::NotFound` for none of a box that must be there once,
/// `Error::Structure` for more than one.
pub open spec fn count_error(n: int) -> Option<Error> {
    if n == 0 {
        Some(Error::NotFound)
    } else if n > 1 {
        Some(Error::Structure)
    } else {
        None
    }
}

/// Whether no two locators share an id.
pub open spec fn locator_ids_unique(locs: Seq<Item>) -> bool {
    forall|i: int, j: int| 0 <= i < j < locs.len() ==> (#[trigger] locs[i]).id != (#[trigger] locs[j]).id
}

/// Whether some locator has id `id`.
pub open spec fn locator_for(locs: Seq<Item>, id: u32) -> bool {
    exists|i: int| 0 <= i < locs.len() && #[trigger] locs[i].id == id
}

/// What is wrong with the item info entries from the `k`-th on: the first
/// one whose id repeats an earlier entry's (`Error::Structure`) or has no
/// locator (`Error::NotFound`).
pub open spec fn infos_error(infos: Seq<ItemInfo>, locs: Seq<Item>, k: nat) -> Option<Error>
    decreases infos.len() - k,
{
    if k >= infos.len() {
        None
    } else if exists|j: int| 0 <= j < k && #[trigger] infos[j].id == infos[k as int].id {
        Some(Error::Structure)
    } else if !locator_for(locs, infos[k as int].id as u32) {
        Some(Error::NotFound)
    } else {
        infos_error(infos, locs, k + 1)
    }
}

/// Why the contents of a `meta` box cannot be resolved into a model, in the
/// order the checks are made; `None` when they can.
pub open spec fn from_raw_error(raw: RawMeta) -> Option<Error> {
    if count_error(raw.handler@.len() as int) is Some {
        count_error(raw.handler@.len() as int)
    } else if count_error(raw.primary_item@.len() as int) is Some {
        count_error(raw.primary_item@.len() as int)
    } else if count_error(raw.item_locators@.len() as int) is Some {
        count_error(raw.item_locators@.len() as int)
    } else if count_error(raw.item_infos@.len() as int) is Some {
        count_error(raw.item_infos@.len() as int)
    } else if count_error(raw.item_props@.len() as int) is Some {
        count_error(raw.item_props@.len() as int)
    } else if count_error(raw.item_props@[0].containers@.len() as int) is Some {
        count_error(raw.item_props@[0].containers@.len() as int)
    } else if count_error(raw.item_props@[0].associations@.len() as int) is Some {
        count_error(raw.item_props@[0].associations@.len() as int)
    } else if !locator_ids_unique(raw.item_locators@[0]@) {
        Some(Error::Structure)
    } else if !associations_in_range(raw.item_props@[0]) {
        Some(Error::Structure)
    } else if infos_error(raw.item_infos@[0]@, raw.item_locators@[0]@, 0) is Some {
        infos_error(raw.item_infos@[0]@, raw.item_locators@[0]@, 0)
    } else if !(exists|i: int|
        0 <= i < raw.item_infos@[0]@.len() && #[trigger] raw.item_infos@[0]@[i].id as u32
            == raw.primary_item@[0] as u32) {
        Some(Error::NotFound)
    } else {
        None
    }
}

/// Whether `items` holds one item with id `id`.
pub open spec fn has_item(items: Seq<ResolvedItem>, id: u32) -> bool {
    exists|i: int| 0 <= i < items.len() && #[trigger] items[i].location.id == id
}

impl Heif {
    pub closed spec fn spec_items(&self) -> Seq<ResolvedItem> {
        self.items@
    }

    pub closed spec fn spec_props(&self) -> Seq<PropertyEntry> {
        self.props@
    }

    pub closed spec fn spec_handler(&self) -> FourCc {
        self.handler
    }

    pub closed spec fn spec_primary_item(&self) -> u32 {
        self.primary_item
    }

    /// What holds of every resolved file: item ids are unique, each item's
    /// locator has the item's id, the primary item exists, and no property
    /// lists an item twice.
    pub open spec fn wf(&self) -> bool {
        &&& forall|i: int, j: int|
            0 <= i < j < self.spec_items().len() ==> (#[trigger] self.spec_items()[i]).location.id
                != (#[trigger] self.spec_items()[j]).location.id
        &&& forall|i: int|
            0 <= i < self.spec_items().len() ==> (#[trigger] self.spec_items()[i]).location.id
                == self.spec_items()[i].info.id as u32
        &&& has_item(self.spec_items(), self.spec_primary_item())
        &&& forall|k: int|
            0 <= k < self.spec_props().len() ==> (#[trigger] self.spec_props()[k]).items@.no_duplicates()
    }

    /// What holds of the model made from `raw` (for which `from_raw_error`
    /// is `None`): the handler type and primary item id are those of `raw`,
    /// the items are its item info entries in order, each with the locator
    /// of its id, the properties are those of its container with the items
    /// associated with each and those it is essential for, and every
    /// association names a property.
    pub open spec fn resolves(&self, raw: RawMeta) -> bool {
        &&& self.wf()
        &&& self.spec_handler() == raw.handler@[0]
        &&& self.spec_primary_item() == raw.primary_item@[0] as u32
        &&& infos_of(self.spec_items()) == raw.item_infos@[0]@
        &&& forall|k: int|
            0 <= k < self.spec_items().len() ==> exists|i: int|
                0 <= i < raw.item_locators@[0]@.len() && raw.item_locators@[0]@[i]
                    == (#[trigger] self.spec_items()[k]).location
        &&& self.spec_props().map_values(|e: PropertyEntry| entry_view(e)) == resolved_props(
            raw.item_props@[0],
        )
        &&& associations_in_range(raw.item_props@[0])
    }

    /// Reads a whole HEIF file (see `load_meta`) and resolves what its `meta`
    /// box holds (see `from_raw`).
    pub fn new(data: &[u8]) -> (r: Result<Heif, Error>)
        ensures
            match load_spec(data@, 0, data@.len() as int, false, None) {
                Err(e) => r == Err::<Heif, Error>(e),
                Ok(_) => exists|raw: RawMeta|
                    #[trigger] meta_of_file(data@, raw) && match from_raw_error(raw) {
                        Some(e) => r == Err::<Heif, Error>(e),
                        None => r is Ok && r->Ok_0.resolves(raw),
                    },
            },
    {
        let raw = load_meta(data)?;
        let ghost snapshot = raw;
        let r = Heif::from_raw(raw);
        assert(meta_of_file(data@, snapshot));
        r
    }

    /// Resolves the contents of a `meta` box: it must hold exactly one
    /// `hdlr`, `pitm`, `iloc`, `iinf` and `iprp`, and the `iprp` exactly one
    /// `ipco` and one `ipma`. Locator ids must be unique, every association
    /// must name an existing property, item ids must be unique and each must
    /// have a locator, and the primary item must exist. The items come in the
    /// order of their `infe` boxes.
    pub fn from_raw(raw: RawMeta) -> (r: Result<Heif, Error>)
        ensures
            match from_raw_error(raw) {
                Some(e) => r == Err::<Heif, Error>(e),
                None => r is Ok && r->Ok_0.resolves(raw),
            },
    {
        let handler = get_only_element(raw.handler)?;
        let primary_item = get_only_element(raw.primary_item)? as u32;
        let locators = get_only_element(raw.item_locators)?;
        let infos = get_only_element(raw.item_infos)?;
        let prop_boxes = get_only_element(raw.item_props)?;
        let ghost rp = prop_boxes;
        let container = get_only_element(prop_boxes.containers)?;
        let assocs = get_only_element(prop_boxes.associations)?;
        if !locator_ids_distinct(&locators) {
            return Err(Error::Structure);
        }
        if !check_indices(&assocs, container.len()) {
            return Err(Error::Structure);
        }
        let ghost orig_locators = locators@;
        let ghost orig_infos = infos@;
        let n = infos.len();
        let mut infos = infos;
        let mut locators = locators;
        let mut items: Vec<ResolvedItem> = Vec::new();
        let mut k: usize = 0;
        proof {
            assert(infos@ =~= orig_infos.subrange(0, n as int));
            assert(infos_of(items@) =~= orig_infos.subrange(0, 0));
        }
        while k < n
            invariant
                n == orig_infos.len(),
                k <= n,
                handler == raw.handler@[0],
                primary_item == raw.primary_item@[0] as u32,
                orig_infos == raw.item_infos@[0]@,
                orig_locators == raw.item_locators@[0]@,
                rp == raw.item_props@[0],
                associations_in_range(rp),
                container == rp.containers@[0],
                assocs == rp.associations@[0],
                from_raw_error(raw) == if infos_error(orig_infos, orig_locators, 0) is Some {
                    infos_error(orig_infos, orig_locators, 0)
                } else if !(exists|i: int|
                    0 <= i < orig_infos.len() && #[trigger] orig_infos[i].id as u32 == primary_item) {
                    Some(Error::NotFound)
                } else {
                    None
                },
                infos@ == orig_infos.subrange(k as int, n as int),
                infos_of(items@) == orig_infos.subrange(0, k as int),
                items@.len() == k,
                infos_error(orig_infos, orig_locators, 0) == infos_error(
                    orig_infos,
                    orig_locators,
                    k as nat,
                ),
                locator_ids_unique(orig_locators),
                locator_ids_unique(locators@),
                forall|x: u32|
                    locator_for(orig_locators, x) && !(exists|j: int|
                        0 <= j < k && #[trigger] orig_infos[j].id as u32 == x) ==> locator_for(
                        locators@,
                        x,
                    ),
                forall|m: int|
                    0 <= m < locators@.len() ==> exists|i: int|
                        0 <= i < orig_locators.len() && orig_locators[i] == #[trigger] locators@[m],
                forall|k2: int|
                    0 <= k2 < k ==> exists|i: int|
                        0 <= i < orig_locators.len() && orig_locators[i] == (
                        #[trigger] items@[k2]).location,
                forall|i: int, j: int|
                    0 <= i < j < items@.len() ==> (#[trigger] items@[i]).location.id
                        != (#[trigger] items@[j]).location.id,
                forall|i: int|
                    0 <= i < items@.len() ==> (#[trigger] items@[i]).location.id
                        == items@[i].info.id as u32,
            decreases n - k,
        {
            let ghost before = items@;
            let ghost remaining = locators@;
            let info = infos.remove(0);
            proof {
                assert(info == orig_infos[k as int]);
                assert(infos@ =~= orig_infos.subrange(k + 1, n as int));
            }
            let id = info.id as u32;
            if find_item(&items, id).is_some() {
                proof {
                    let at = choose|i: int| 0 <= i < items@.len() && items@[i].location.id == id;
                    assert(infos_of(items@)[at] == orig_infos[at]);
                    assert(orig_infos[at].id == orig_infos[k as int].id);
                }
                return Err(Error::Structure);
            }
            proof {
                assert forall|j: int| 0 <= j < k implies #[trigger] orig_infos[j].id
                    != orig_infos[k as int].id by {
                    assert(infos_of(items@)[j] == orig_infos[j]);
                    assert(items@[j].location.id == orig_infos[j].id as u32);
                }
            }
            let location = match find_locator(&locators, id) {
                Some(at) => locators.remove(at),
                None => {
                    proof {
                        if locator_for(orig_locators, id) {
                            assert(!(exists|j: int|
                                0 <= j < k && #[trigger] orig_infos[j].id as u32 == id));
                        }
                    }
                    return Err(Error::NotFound);
                },
            };
            proof {
                let at = choose|m: int| 0 <= m < remaining.len() && remaining[m] == location;
                assert(remaining.contains(location));
            }
            items.push(ResolvedItem { info, location });
            k = k + 1;
            proof {
                assert(infos_of(items@) =~= orig_infos.subrange(0, k as int));
                assert forall|m: int| 0 <= m < locators@.len() implies exists|i: int|
                    0 <= i < orig_locators.len() && orig_locators[i] == #[trigger] locators@[m] by {
                    let at = choose|a: int| 0 <= a < remaining.len() && remaining[a] == location;
                    if m < at {
                        assert(locators@[m] == remaining[m]);
                    } else {
                        assert(locators@[m] == remaining[m + 1]);
                    }
                }
                assert forall|x: u32|
                    locator_for(orig_locators, x) && !(exists|j: int|
                        0 <= j < k && #[trigger] orig_infos[j].id as u32 == x) implies locator_for(
                    locators@,
                    x,
                ) by {
                    assert(!(exists|j: int|
                        0 <= j < k - 1 && #[trigger] orig_infos[j].id as u32 == x)) by {
                        if exists|j: int| 0 <= j < k - 1 && #[trigger] orig_infos[j].id as u32 == x {
                            let j = choose|j: int|
                                0 <= j < k - 1 && #[trigger] orig_infos[j].id as u32 == x;
                            assert(0 <= j < k);
                        }
                    }
                    assert(orig_infos[k - 1].id as u32 != x);
                    let w = choose|w: int| 0 <= w < remaining.len() && remaining[w].id == x;
                    let at = choose|a: int| 0 <= a < remaining.len() && remaining[a] == location;
                    if w < at {
                        assert(locators@[w] == remaining[w]);
                    } else {
                        assert(w != at);
                        assert(locators@[w - 1] == remaining[w]);
                    }
                }
                assert(locator_ids_unique(locators@)) by {
                    let at = choose|a: int| 0 <= a < remaining.len() && remaining[a] == location;
                    assert forall|i: int, j: int| 0 <= i < j < locators@.len() implies (
                    #[trigger] locators@[i]).id != (#[trigger] locators@[j]).id by {
                        let i2 = if i < at {
                            i
                        } else {
                            i + 1
                        };
                        let j2 = if j < at {
                            j
                        } else {
                            j + 1
                        };
                        assert(locators@[i] == remaining[i2]);
                        assert(locators@[j] == remaining[j2]);
                    }
                }
                assert forall|k2: int| 0 <= k2 < k implies exists|i: int|
                    0 <= i < orig_locators.len() && orig_locators[i] == (
                    #[trigger] items@[k2]).location by {
                    if k2 < k - 1 {
                        assert(items@[k2] == before[k2]);
                    } else {
                        let at = choose|a: int| 0 <= a < remaining.len() && remaining[a] == location;
                        assert(exists|i: int|
                            0 <= i < orig_locators.len() && orig_locators[i] == remaining[at]);
                    }
                }
            }
        }
        if find_item(&items, primary_item).is_none() {
            proof {
                if exists|i: int| 0 <= i < orig_infos.len() && orig_infos[i].id as u32 == primary_item {
                    let i = choose|i: int|
                        0 <= i < orig_infos.len() && orig_infos[i].id as u32 == primary_item;
                    assert(infos_of(items@)[i] == orig_infos[i]);
                    assert(items@[i].location.id == primary_item);
                }
            }
            return Err(Error::NotFound);
        }
        let resolved = resolve_properties(container, &assocs)?;
        let mut props: Vec<PropertyEntry> = Vec::new();
        let mut resolved = resolved;
        let ghost all = resolved@;
        while resolved.len() > 0
            invariant
                props@ + resolved@ == all,
            decreases resolved@.len(),
        {
            let ghost r0 = resolved@;
            let entry = resolved.remove(0);
            props.push(entry);
            assert(props@ + resolved@ =~= all) by {
                assert(r0 =~= seq![entry] + resolved@);
            }
        }
        proof {
            assert(props@ =~= all);
            assert(infos_of(items@) =~= orig_infos);
            let view = props@.map_values(|e: PropertyEntry| entry_view(e));
            assert forall|j: int| 0 <= j < view.len() implies #[trigger] view[j] == resolved_props(
                rp,
            )[j] by {
                assert(props@[j].items@.to_set() =~= Set::new(
                    |id: u32| associated(assocs@, id, j + 1),
                ));
                assert(props@[j].essential@.to_set() =~= Set::new(
                    |id: u32| associated_where(assocs@, id, j + 1, true),
                ));
            }
            assert(view =~= resolved_props(rp));
        }
        let heif = Heif { handler, primary_item, items, props };
        proof {
            assert(infos_error(orig_infos, orig_locators, n as nat) is None);
            let at = choose|i: int| 0 <= i < items@.len() && items@[i].location.id == primary_item;
            assert(infos_of(items@)[at] == orig_infos[at]);
            assert(orig_infos[at].id as u32 == primary_item);
            assert(from_raw_error(raw) is None);
            assert(heif.wf());
            assert(heif.resolves(raw));
        }
        Ok(heif)
    }

    /// The handler type of the `meta` box.
    pub fn handler(&self) -> (r: FourCc)
        ensures
            r == self.spec_handler(),
    {
        self.handler
    }

    pub fn primary_item_id(&self) -> (r: u32)
        ensures
            r == self.spec_primary_item(),
    {
        self.primary_item
    }

    /// A reader over the bytes of item `item`: its extents, read in order
    /// from `data`, which must be the file the model was read from. Fails
    /// with `Error::NotFound` for an unknown item; with `Error::Structure`
    /// when the item has no extents, its first extent is empty, or the extent
    /// indices do not run 0, 1, 2, ...; with `Error::Eof` when an extent lies
    /// past the end of `data`.
    pub fn open_item_data<'a>(&'a self, data: &'a [u8], item: u32) -> (r: Result<
        Extents<'a>,
        Error,
    >)
        ensures
            !has_item(self.spec_items(), item) ==> r == Err::<Extents, Error>(Error::NotFound),
            forall|i: int|
                0 <= i < self.spec_items().len() && (#[trigger] self.spec_items()[i]).location.id
                    == item && (forall|j: int|
                    0 <= j < i ==> self.spec_items()[j].location.id != item) ==> match open_check(
                    data@,
                    self.spec_items()[i].location.base_offset as int,
                    self.spec_items()[i].location.extents@,
                ) {
                    Some(e) => r == Err::<Extents, Error>(e),
                    None => r is Ok && r->Ok_0.wf() && r->Ok_0.consumed() == 0 && r->Ok_0.item()
                        == item_bytes(
                        data@,
                        self.spec_items()[i].location.base_offset as int,
                        self.spec_items()[i].location.extents@,
                    ),
                },
            r is Ok ==> r->Ok_0.wf() && r->Ok_0.consumed() == 0 && exists|i: int|
                0 <= i < self.spec_items().len() && self.spec_items()[i].location.id == item
                    && r->Ok_0.item() == item_bytes(
                    data@,
                    self.spec_items()[i].location.base_offset as int,
                    self.spec_items()[i].location.extents@,
                ),
    {
        let at = match find_item(&self.items, item) {
            Some(at) => at,
            None => {
                return Err(Error::NotFound);
            },
        };
        assert(self.items@[at as int].location.id == item);
        assert(has_item(self.items@, item));
        let location = &self.items[at].location;
        let extents = &location.extents;
        let base = location.base_offset;
        if extents.len() == 0 {
            return Err(Error::Structure);
        }
        if extents[0].length == 0 || extents[0].index != 0 {
            return Err(Error::Structure);
        }
        let mut k: usize = 0;
        while k < extents.len()
            invariant
                has_item(self.items@, item),
                at < self.items@.len(),
                self.items@[at as int].location.id == item,
                *extents == self.items@[at as int].location.extents,
                base == self.items@[at as int].location.base_offset,
                k <= extents@.len(),
                forall|j: int| 0 <= j < at ==> (#[trigger] self.items@[j]).location.id != item,
                self.spec_items() == self.items@,
                open_check(data@, base as int, extents@) == extents_check(
                    data@,
                    base as int,
                    extents@,
                    0,
                ),
                extents_check(data@, base as int, extents@, 0) == extents_check(
                    data@,
                    base as int,
                    extents@,
                    k as nat,
                ),
                forall|m: int|
                    0 <= m < k ==> base + (#[trigger] extents@[m]).offset + extents@[m].length
                        <= data@.len(),
            decreases extents@.len() - k,
        {
            let e = extents[k];
            if e.index != k as u64 {
                return Err(Error::Structure);
            }
            let len = data.len() as u64;
            if base > len || e.offset > len - base || e.length > len - base - e.offset {
                return Err(Error::Eof);
            }
            k = k + 1;
        }
        let reader = Extents { data, base, extents, current_extent: 0, current_pos: 0 };
        assert(reader.wf());
        assert(reader.consumed() == 0);
        assert(reader.item() == item_bytes(
            data@,
            self.items@[at as int].location.base_offset as int,
            self.items@[at as int].location.extents@,
        ));
        assert(self.spec_items()[at as int] == self.items@[at as int]);
        assert(extents_check(data@, base as int, extents@, extents@.len() as nat) is None);
        Ok(reader)
    }

    /// The sequence parameter set of item `item`: the first SPS unit in an
    /// `hvcC` property associated with the item. Fails with
    /// `Error::NotFound` when there is none.
    pub fn find_sps(&self, item: u32) -> (r: Result<SeqParamSet, Error>)
        ensures
            !has_parameter_set(self.spec_props(), item, NAL_SPS_NUT) ==> r == Err::<
                SeqParamSet,
                Error,
            >(Error::NotFound),
            r is Ok ==> r->Ok_0.wf(),
            r is Ok ==> exists|m: int, n: int|
                #[trigger] parameter_set_at(self.spec_props(), item, NAL_SPS_NUT, m, n) && sps_spec(
                    set_payload(self.spec_props(), m, n),
                    0,
                ) is Ok && sps_spec(set_payload(self.spec_props(), m, n), 0)->Ok_0.0 == r->Ok_0,
            forall|m: int, n: int|
                #[trigger] first_parameter_set(self.spec_props(), item, NAL_SPS_NUT, m, n) ==> if bad_units(
                    self.spec_props(),
                    m,
                    n,
                ) {
                    r == Err::<SeqParamSet, Error>(Error::Structure)
                } else if 8 * set_payload(self.spec_props(), m, n).len() > u64::MAX {
                    r == Err::<SeqParamSet, Error>(Error::Range)
                } else {
                    match sps_spec(set_payload(self.spec_props(), m, n), 0) {
                        Ok((set, _)) => r == Ok::<SeqParamSet, Error>(set),
                        Err(e) => r == Err::<SeqParamSet, Error>(e),
                    }
                },
    {
        let payload = self.find_parameter_set(item, NAL_SPS_NUT)?;
        if payload.len() as u64 > u64::MAX / 8 {
            return Err(Error::Range);
        }
        sps::seq_parameter_set(&mut BitReader::new(payload.as_slice()))
    }

    /// The picture parameter set of item `item`: the first PPS unit in an
    /// `hvcC` property associated with the item. Fails with
    /// `Error::NotFound` when there is none.
    pub fn find_pps(&self, item: u32) -> (r: Result<PicParamSet, Error>)
        ensures
            !has_parameter_set(self.spec_props(), item, NAL_PPS_NUT) ==> r == Err::<
                PicParamSet,
                Error,
            >(Error::NotFound),
            r is Ok ==> r->Ok_0.wf(),
            r is Ok ==> exists|m: int, n: int|
                #[trigger] parameter_set_at(self.spec_props(), item, NAL_PPS_NUT, m, n) && pps_spec(
                    set_payload(self.spec_props(), m, n),
                    0,
                ) is Ok && pps_spec(set_payload(self.spec_props(), m, n), 0)->Ok_0.0 == r->Ok_0,
            forall|m: int, n: int|
                #[trigger] first_parameter_set(self.spec_props(), item, NAL_PPS_NUT, m, n) ==> if bad_units(
                    self.spec_props(),
                    m,
                    n,
                ) {
                    r == Err::<PicParamSet, Error>(Error::Structure)
                } else if 8 * set_payload(self.spec_props(), m, n).len() > u64::MAX {
                    r == Err::<PicParamSet, Error>(Error::Range)
                } else {
                    match pps_spec(set_payload(self.spec_props(), m, n), 0) {
                        Ok((set, _)) => r == Ok::<PicParamSet, Error>(set),
                        Err(e) => r == Err::<PicParamSet, Error>(e),
                    }
                },
    {
        let payload = self.find_parameter_set(item, NAL_PPS_NUT)?;
        if payload.len() as u64 > u64::MAX / 8 {
            return Err(Error::Range);
        }
        pps::picture_parameter_set(&mut BitReader::new(payload.as_slice()))
    }

    /// The unescaped payload, less its two-byte NAL unit header, of the first
    /// unit of type `unit_type` in an `hvcC` property associated with `item`.
    /// The array holding it must hold exactly one unit of at least two bytes.
    fn find_parameter_set(&self, item: u32, unit_type: u8) -> (r: Result<Vec<u8>, Error>)
        ensures
            !has_parameter_set(self.spec_props(), item, unit_type) ==> r == Err::<Vec<u8>, Error>(
                Error::NotFound,
            ),
            r is Ok ==> exists|m: int, n: int|
                #[trigger] parameter_set_at(self.spec_props(), item, unit_type, m, n) && r->Ok_0@
                    == set_payload(self.spec_props(), m, n),
            forall|m: int, n: int|
                #[trigger] first_parameter_set(self.spec_props(), item, unit_type, m, n) ==> if bad_units(
                    self.spec_props(),
                    m,
                    n,
                ) {
                    r == Err::<Vec<u8>, Error>(Error::Structure)
                } else {
                    r is Ok && r->Ok_0@ == set_payload(self.spec_props(), m, n)
                },
    {
        let mut k: usize = 0;
        while k < self.props.len()
            invariant
                k <= self.props@.len(),
                forall|m: int, n: int|
                    0 <= m < k ==> !#[trigger] parameter_set_at(self.props@, item, unit_type, m, n),
            decreases self.props@.len() - k,
        {
            let entry = &self.props[k];
            if contains_id(&entry.items, item) {
                match &entry.property {
                    Property::HvcCodecSettings(hvcc) => {
                        let mut n: usize = 0;
                        while n < hvcc.nals.len()
                            invariant
                                k < self.props@.len(),
                                entry == self.props@[k as int],
                                entry.items@.contains(item),
                                entry.property == Property::HvcCodecSettings(*hvcc),
                                n <= hvcc.nals@.len(),
                                forall|m: int, n2: int|
                                    0 <= m < k ==> !#[trigger] parameter_set_at(
                                        self.props@,
                                        item,
                                        unit_type,
                                        m,
                                        n2,
                                    ),
                                forall|n2: int|
                                    0 <= n2 < n ==> !#[trigger] parameter_set_at(
                                        self.props@,
                                        item,
                                        unit_type,
                                        k as int,
                                        n2,
                                    ),
                            decreases hvcc.nals@.len() - n,
                        {
                            let nal: &Nal = &hvcc.nals[n];
                            if nal.nal_unit_type() == unit_type {
                                assert(parameter_set_at(
                                    self.props@,
                                    item,
                                    unit_type,
                                    k as int,
                                    n as int,
                                ));
                                if nal.units.len() != 1 {
                                    return Err(Error::Structure);
                                }
                                let unit = &nal.units[0];
                                if unit.len() < 2 {
                                    return Err(Error::Structure);
                                }
                                let body = vstd::slice::slice_subrange(unit.as_slice(), 2, unit.len());
                                let payload = un_nal(body);
                                assert(payload@ == set_payload(self.spec_props(), k as int, n as int));
                                assert(parameter_set_at(
                                    self.spec_props(),
                                    item,
                                    unit_type,
                                    k as int,
                                    n as int,
                                ));
                                return Ok(payload);
                            }
                            n = n + 1;
                        }
                    },
                    _ => {},
                }
            }
            k = k + 1;
        }
        Err(Error::NotFound)
    }
}

/// Whether the `n`-th NAL unit array of the property at position `m` is of
/// type `unit_type`, in an `hvcC` property associated with `item`.
pub open spec fn parameter_set_at(
    props: Seq<PropertyEntry>,
    item: u32,
    unit_type: u8,
    m: int,
    n: int,
) -> bool {
    &&& 0 <= m < props.len()
    &&& props[m].items@.contains(item)
    &&& match props[m].property {
        Property::HvcCodecSettings(h) => 0 <= n < h.nals@.len() && h.nals@[n].completeness_and_nal_unit_type
            % 64 == unit_type,
        _ => false,
    }
}

/// The unescaped payload, less its two-byte NAL unit header, of the first
/// unit of the `n`-th NAL unit array of the property at position `m`.
pub open spec fn set_payload(props: Seq<PropertyEntry>, m: int, n: int) -> Seq<u8> {
    match props[m].property {
        Property::HvcCodecSettings(h) => unescape(
            h.nals@[n].units@[0]@.subrange(2, h.nals@[n].units@[0]@.len() as int),
        ),
        _ => Seq::empty(),
    }
}

/// The units of the `n`-th NAL unit array of the property at position `m`.
pub open spec fn set_units(props: Seq<PropertyEntry>, m: int, n: int) -> Seq<Vec<u8>> {
    match props[m].property {
        Property::HvcCodecSettings(h) => h.nals@[n].units@,
        _ => Seq::empty(),
    }
}

/// Whether array `n` of property `m` is the first array of type `unit_type`
/// associated with `item`: in property order, then array order.
pub open spec fn first_parameter_set(
    props: Seq<PropertyEntry>,
    item: u32,
    unit_type: u8,
    m: int,
    n: int,
) -> bool {
    &&& parameter_set_at(props, item, unit_type, m, n)
    &&& forall|m2: int, n2: int|
        0 <= m2 < m ==> !#[trigger] parameter_set_at(props, item, unit_type, m2, n2)
    &&& forall|n2: int| 0 <= n2 < n ==> !#[trigger] parameter_set_at(props, item, unit_type, m, n2)
}

/// Whether the units of that array are not one unit of at least two bytes.
pub open spec fn bad_units(props: Seq<PropertyEntry>, m: int, n: int) -> bool {
    set_units(props, m, n).len() != 1 || set_units(props, m, n)[0]@.len() < 2
}

/// Whether an `hvcC` property associated with `item` holds a NAL unit array
/// of type `unit_type`.
pub open spec fn has_parameter_set(props: Seq<PropertyEntry>, item: u32, unit_type: u8) -> bool {
    exists|m: int, n: int| #[trigger] parameter_set_at(props, item, unit_type, m, n)
}

/// The position of the locator with id `id`, if any.
fn find_locator(locators: &Vec<Item>, id: u32) -> (r: Option<usize>)
    ensures
        r is Some ==> r->Some_0 < locators@.len() && locators@[r->Some_0 as int].id == id,
        r is None ==> forall|i: int| 0 <= i < locators@.len() ==> (#[trigger] locators@[i]).id != id,
{
    let mut i: usize = 0;
    while i < locators.len()
        invariant
            i <= locators@.len(),
            forall|m: int| 0 <= m < i ==> (#[trigger] locators@[m]).id != id,
        decreases locators@.len() - i,
    {
        if locators[i].id == id {
            return Some(i);
        }
        i = i + 1;
    }
    None
}

/// The position of the item with id `id`, if any.
fn find_item(items: &Vec<ResolvedItem>, id: u32) -> (r: Option<usize>)
    ensures
        r is Some ==> r->Some_0 < items@.len() && items@[r->Some_0 as int].location.id == id
            && forall|j: int| 0 <= j < r->Some_0 ==> (#[trigger] items@[j]).location.id != id,
        r is None ==> !has_item(items@, id),
{
    let mut i: usize = 0;
    while i < items.len()
        invariant
            i <= items@.len(),
            forall|m: int| 0 <= m < i ==> (#[trigger] items@[m]).location.id != id,
        decreases items@.len() - i,
    {
        if items[i].location.id == id {
            return Some(i);
        }
        i = i + 1;
    }
    None
}

/// Why the extents from the `k`-th on cannot be read: an index out of
/// sequence, or an extent past the end of `d`; `None` when they can.
pub open spec fn extents_check(d: Seq<u8>, base: int, es: Seq<Extent>, k: nat) -> Option<Error>
    decreases es.len() - k,
{
    if k >= es.len() {
        None
    } else if es[k as int].index != k {
        Some(Error::Structure)
    } else if base + es[k as int].offset + es[k as int].length > d.len() {
        Some(Error::Eof)
    } else {
        extents_check(d, base, es, k + 1)
    }
}

/// Why an item with these extents cannot be opened: no extents, an empty
/// first extent, indices not running 0, 1, 2, ..., or an extent past the end
/// of `d`; `None` when it can.
pub open spec fn open_check(d: Seq<u8>, base: int, es: Seq<Extent>) -> Option<Error> {
    if es.len() == 0 || es[0].length == 0 || es[0].index != 0 {
        Some(Error::Structure)
    } else {
        extents_check(d, base, es, 0)
    }
}

/// The bytes of one extent.
pub open spec fn extent_bytes(d: Seq<u8>, base: int, e: Extent) -> Seq<u8> {
    d.subrange(base + e.offset, base + e.offset + e.length)
}

/// The bytes of an item: its extents' bytes one after the other, in order.
pub open spec fn item_bytes(d: Seq<u8>, base: int, es: Seq<Extent>) -> Seq<u8>
    decreases es.len(),
{
    if es.len() == 0 {
        Seq::empty()
    } else {
        item_bytes(d, base, es.drop_last()) + extent_bytes(d, base, es.last())
    }
}

/// The total length of the first `k` extents.
pub open spec fn total_len(es: Seq<Extent>, k: int) -> int
    decreases k,
{
    if k <= 0 {
        0
    } else {
        total_len(es, k - 1) + es[k - 1].length
    }
}

/// Whether every extent lies inside `d`.
pub open spec fn extents_fit(d: Seq<u8>, base: int, es: Seq<Extent>) -> bool {
    forall|k: int| 0 <= k < es.len() ==> base + (#[trigger] es[k]).offset + es[k].length <= d.len()
}

proof fn lemma_total_len_prefix(es: Seq<Extent>, k: int)
    requires
        0 <= k < es.len(),
    ensures
        total_len(es.drop_last(), k) == total_len(es, k),
    decreases k,
{
    if k > 0 {
        lemma_total_len_prefix(es, k - 1);
    }
}

proof fn lemma_total_len_monotonic(es: Seq<Extent>, j: int, k: int)
    requires
        0 <= j <= k <= es.len(),
    ensures
        total_len(es, j) <= total_len(es, k),
    decreases k - j,
{
    if j < k {
        lemma_total_len_monotonic(es, j, k - 1);
    }
}

/// An item is as long as its extents together.
pub proof fn lemma_item_bytes_len(d: Seq<u8>, base: int, es: Seq<Extent>)
    requires
        extents_fit(d, base, es),
        base >= 0,
    ensures
        item_bytes(d, base, es).len() == total_len(es, es.len() as int),
    decreases es.len(),
{
    if es.len() > 0 {
        let init = es.drop_last();
        assert forall|k: int| 0 <= k < init.len() implies base + (#[trigger] init[k]).offset
            + init[k].length <= d.len() by {
            assert(init[k] == es[k]);
        }
        lemma_item_bytes_len(d, base, init);
        lemma_total_len_prefix(es, es.len() - 1);
        assert(es[es.len() - 1] == es.last());
    }
}

/// Byte `p` of extent `k` stands in the item right after the extents before
/// it.
pub proof fn lemma_item_bytes_index(d: Seq<u8>, base: int, es: Seq<Extent>, k: int, p: int)
    requires
        extents_fit(d, base, es),
        base >= 0,
        0 <= k < es.len(),
        0 <= p < es[k].length,
    ensures
        total_len(es, k) + p < item_bytes(d, base, es).len(),
        item_bytes(d, base, es)[total_len(es, k) + p] == d[base + es[k].offset + p],
    decreases es.len(),
{
    let init = es.drop_last();
    assert forall|m: int| 0 <= m < init.len() implies base + (#[trigger] init[m]).offset
        + init[m].length <= d.len() by {
        assert(init[m] == es[m]);
    }
    lemma_item_bytes_len(d, base, init);
    lemma_item_bytes_len(d, base, es);
    assert(item_bytes(d, base, es) == item_bytes(d, base, init) + extent_bytes(d, base, es.last()));
    let a = item_bytes(d, base, init);
    if k == es.len() - 1 {
        lemma_total_len_prefix(es, k);
        assert(es.last() == es[k]);
        assert(total_len(es, k) == a.len());
        let bb = extent_bytes(d, base, es[k]);
        assert(bb.len() == es[k].length);
        assert(bb[p] == d[base + es[k].offset + p]);
        assert((a + bb)[a.len() + p] == bb[p]);
    } else {
        assert(init[k] == es[k]);
        assert(total_len(init, k + 1) == total_len(init, k) + init[k].length);
        lemma_item_bytes_index(d, base, init, k, p);
        lemma_total_len_prefix(es, k);
        lemma_total_len_prefix(es, k + 1);
        lemma_total_len_monotonic(init, k + 1, init.len() as int);
        let bb = extent_bytes(d, base, es.last());
        lemma_total_len_monotonic(es, 0, k);
        assert(total_len(es, k) + p < a.len());
        assert((a + bb)[total_len(es, k) + p] == a[total_len(es, k) + p]);
    }
}

/// How many bytes are left in the first extent, from the `k`-th on, that
/// still has any, standing `pos` bytes into the `k`-th; 0 when none has.
pub open spec fn run_left(es: Seq<Extent>, k: int, pos: int) -> int
    decreases es.len() - k,
{
    if k < 0 || k >= es.len() {
        0
    } else if pos < es[k].length {
        es[k].length - pos
    } else {
        run_left(es, k + 1, 0)
    }
}

proof fn lemma_run_left_nonnegative(es: Seq<Extent>, k: int, pos: int)
    ensures
        run_left(es, k, pos) >= 0,
    decreases es.len() - k,
{
    if 0 <= k < es.len() && pos >= es[k].length {
        lemma_run_left_nonnegative(es, k + 1, 0);
    }
}

/// The total length of the first `i` chunks.
pub open spec fn chunks_len(chunks: Seq<Seq<u8>>, i: int) -> int
    decreases i,
{
    if i <= 0 {
        0
    } else {
        chunks_len(chunks, i - 1) + chunks[i - 1].len()
    }
}

/// Reading an item to its end: when each chunk that `Extents::read` hands
/// out is the item's next bytes from where the chunks before it stopped, and
/// the chunks together are as long as the item, they make up the item, in
/// order.
pub proof fn lemma_reads_make_item(item: Seq<u8>, chunks: Seq<Seq<u8>>)
    requires
        forall|i: int|
            0 <= i < chunks.len() ==> #[trigger] chunks[i] == item.subrange(
                chunks_len(chunks, i),
                chunks_len(chunks, i) + chunks[i].len(),
            ),
        chunks_len(chunks, chunks.len() as int) == item.len(),
    ensures
        chunks.flatten() == item,
    decreases chunks.len(),
{
    if chunks.len() == 0 {
        assert(item =~= Seq::<u8>::empty());
    } else {
        let first = chunks[0];
        lemma_chunks_len_monotonic(chunks, 1, chunks.len() as int);
        assert(chunks_len(chunks, 1) == chunks_len(chunks, 0) + first.len());
        let rest_item = item.subrange(first.len() as int, item.len() as int);
        let rest = chunks.drop_first();
        assert forall|i: int| 0 <= i <= rest.len() implies chunks_len(rest, i) + first.len()
            == chunks_len(chunks, i + 1) by {
            lemma_chunks_len_shift(chunks, i);
        }
        assert forall|i: int| 0 <= i < rest.len() implies #[trigger] rest[i] == rest_item.subrange(
            chunks_len(rest, i),
            chunks_len(rest, i) + rest[i].len(),
        ) by {
            lemma_chunks_len_shift(chunks, i);
            lemma_chunks_len_shift(chunks, i + 1);
            lemma_chunks_len_monotonic(chunks, i + 2, chunks.len() as int);
            lemma_chunks_len_monotonic(chunks, 1, i + 1);
            assert(chunks_len(chunks, i + 2) == chunks_len(chunks, i + 1) + chunks[i + 1].len());
            assert(rest[i] == chunks[i + 1]);
            assert(rest_item.subrange(chunks_len(rest, i), chunks_len(rest, i) + rest[i].len())
                =~= item.subrange(chunks_len(chunks, i + 1), chunks_len(chunks, i + 1)
                + chunks[i + 1].len()));
        }
        lemma_chunks_len_shift(chunks, rest.len() as int);
        lemma_reads_make_item(rest_item, rest);
        assert(chunks_len(chunks, 1) == first.len());
        assert(first =~= item.subrange(0, first.len() as int));
        assert(item =~= first + rest_item);
    }
}

proof fn lemma_chunks_len_shift(chunks: Seq<Seq<u8>>, i: int)
    requires
        chunks.len() > 0,
        0 <= i <= chunks.len() - 1,
    ensures
        chunks_len(chunks.drop_first(), i) + chunks[0].len() == chunks_len(chunks, i + 1),
    decreases i,
{
    let rest = chunks.drop_first();
    if i == 0 {
        assert(chunks_len(chunks, 1) == chunks_len(chunks, 0) + chunks[0].len());
    } else {
        lemma_chunks_len_shift(chunks, i - 1);
        assert(rest[i - 1] == chunks[i]);
        assert(chunks_len(rest, i) == chunks_len(rest, i - 1) + rest[i - 1].len());
        assert(chunks_len(chunks, i + 1) == chunks_len(chunks, i) + chunks[i].len());
    }
}

proof fn lemma_chunks_len_monotonic(chunks: Seq<Seq<u8>>, j: int, k: int)
    requires
        0 <= j <= k <= chunks.len(),
    ensures
        0 <= chunks_len(chunks, j) <= chunks_len(chunks, k),
    decreases k,
{
    if k > j {
        lemma_chunks_len_monotonic(chunks, j, k - 1);
    } else if k > 0 {
        lemma_chunks_len_monotonic(chunks, 0, k - 1);
    }
}

/// A reader over an item's bytes, which may lie in several extents of the
/// file: it hands them out in extent order, as if they were one run.
pub struct Extents<'a> {
    data: &'a [u8],
    base: u64,
    extents: &'a Vec<Extent>,
    current_extent: usize,
    current_pos: u64,
}

impl<'a> Extents<'a> {
    /// All the bytes of the item.
    pub closed spec fn item(&self) -> Seq<u8> {
        item_bytes(self.data@, self.base as int, self.extents@)
    }

    /// How many bytes are left in the extent that the next read takes from.
    pub closed spec fn left_in_extent(&self) -> int {
        run_left(self.extents@, self.current_extent as int, self.current_pos as int)
    }

    /// How many of them have been handed out.
    pub closed spec fn consumed(&self) -> int {
        total_len(self.extents@, self.current_extent as int) + self.current_pos
    }

    pub closed spec fn wf(&self) -> bool {
        &&& extents_fit(self.data@, self.base as int, self.extents@)
        &&& self.current_extent <= self.extents@.len()
        &&& self.current_extent < self.extents@.len() ==> self.current_pos
            <= self.extents@[self.current_extent as int].length
        &&& self.current_extent == self.extents@.len() ==> self.current_pos == 0
    }

    /// Copies the next bytes of the item into the front of `buf`, at most
    /// what is left of the current extent, and returns how many. Returns 0
    /// only for an empty `buf` or at the end of the item.
    pub fn read(&mut self, buf: &mut [u8]) -> (r: usize)
        requires
            old(self).wf(),
        ensures
            final(self).wf(),
            final(self).item() == old(self).item(),
            0 <= old(self).consumed() <= old(self).item().len(),
            final(self).consumed() == old(self).consumed() + r,
            r <= old(buf)@.len(),
            final(buf)@.len() == old(buf)@.len(),
            forall|i: int|
                0 <= i < r ==> final(buf)@[i] == old(self).item()[old(self).consumed() + i],
            forall|i: int| r <= i < old(buf)@.len() ==> final(buf)@[i] == old(buf)@[i],
            (r == 0) == (old(buf)@.len() == 0 || old(self).consumed() == old(self).item().len()),
            r == if old(buf)@.len() < old(self).left_in_extent() {
                old(buf)@.len() as int
            } else {
                old(self).left_in_extent()
            },
    {
        proof {
            lemma_item_bytes_len(self.data@, self.base as int, self.extents@);
            lemma_total_len_monotonic(
                self.extents@,
                self.current_extent as int,
                self.extents@.len() as int,
            );
            lemma_total_len_monotonic(self.extents@, 0, self.current_extent as int);
            if self.current_extent < self.extents@.len() {
                assert(total_len(self.extents@, self.current_extent + 1) == total_len(
                    self.extents@,
                    self.current_extent as int,
                ) + self.extents@[self.current_extent as int].length);
                lemma_total_len_monotonic(
                    self.extents@,
                    self.current_extent + 1,
                    self.extents@.len() as int,
                );
            }
        }
        proof {
            lemma_run_left_nonnegative(
                self.extents@,
                self.current_extent as int,
                self.current_pos as int,
            );
        }
        if buf.len() == 0 {
            return 0;
        }
        let n = self.extents.len();
        while self.current_extent < n && self.current_pos == self.extents[self.current_extent].length
            invariant
                self.wf(),
                n == self.extents@.len(),
                self.item() == old(self).item(),
                self.consumed() == old(self).consumed(),
                self.data == old(self).data,
                self.base == old(self).base,
                self.extents == old(self).extents,
                self.left_in_extent() == old(self).left_in_extent(),
            decreases n - self.current_extent,
        {
            self.current_extent = self.current_extent + 1;
            self.current_pos = 0;
        }
        if self.current_extent == n {
            return 0;
        }
        proof {
            lemma_item_bytes_len(self.data@, self.base as int, self.extents@);
            assert(total_len(self.extents@, self.current_extent + 1) == total_len(
                self.extents@,
                self.current_extent as int,
            ) + self.extents@[self.current_extent as int].length);
            lemma_total_len_monotonic(
                self.extents@,
                self.current_extent + 1,
                self.extents@.len() as int,
            );
        }
        let e = self.extents[self.current_extent];
        assert(self.base + e.offset + e.length <= self.data@.len());
        let avail = e.length - self.current_pos;
        let count: usize = if avail < buf.len() as u64 {
            avail as usize
        } else {
            buf.len()
        };
        let data_len = self.data.len();
        assert(self.base + e.offset + self.current_pos <= data_len);
        let start = (self.base + e.offset + self.current_pos) as usize;
        let ghost c0 = self.consumed();
        let mut i: usize = 0;
        while i < count
            invariant
                self.wf(),
                self.item() == old(self).item(),
                self.consumed() == c0,
                c0 == old(self).consumed(),
                self.current_extent < self.extents@.len(),
                e == self.extents@[self.current_extent as int],
                self.current_pos + count <= e.length,
                start == self.base + e.offset + self.current_pos,
                start + count <= data_len,
                data_len == self.data@.len(),
                i <= count,
                count <= old(buf)@.len(),
                buf@.len() == old(buf)@.len(),
                forall|j: int| 0 <= j < i ==> buf@[j] == self.item()[c0 + j],
                forall|j: int| i <= j < old(buf)@.len() ==> buf@[j] == old(buf)@[j],
            decreases count - i,
        {
            proof {
                lemma_item_bytes_index(
                    self.data@,
                    self.base as int,
                    self.extents@,
                    self.current_extent as int,
                    self.current_pos + i,
                );
            }
            buf[i] = self.data[start + i];
            i = i + 1;
        }
        self.current_pos = self.current_pos + count as u64;
        count
    }
}

} // verus!
