//! Open buckets, and the resource table that keeps them.

use vstd::prelude::*;
use vstd::string::*;
use wasmtime::component::{Resource, ResourceTable, ResourceTableError};

verus! {

/// An open bucket.
pub struct Bucket {
    /// The first segment of the name of each row of the bucket.
    pub(crate) name: String,
}

impl View for Bucket {
    type V = Seq<char>;

    closed spec fn view(&self) -> Seq<char> {
        self.name@
    }
}

impl Bucket {
    /// An open bucket called `name`.
    pub(crate) fn named(name: String) -> (bucket: Bucket)
        ensures
            bucket@ == name@,
    {
        Bucket { name }
    }

    /// The bucket's name.
    pub(crate) fn name(&self) -> (name: &str)
        ensures
            name@ == self@,
    {
        self.name.as_str()
    }
}

/// Declares `wasmtime::component::Resource`, a handle of an entry of a resource table.
#[verifier::external_type_specification]
#[verifier::external_body]
#[verifier::reject_recursive_types(T)]
pub struct ExResource<T: 'static>(wasmtime::component::Resource<T>);

/// Declares `wasmtime::component::ResourceTable`.
#[verifier::external_type_specification]
#[verifier::external_body]
pub struct ExResourceTable(wasmtime::component::ResourceTable);

/// The slot that a handle stands for.
pub uninterp spec fn slot(handle: Resource<Bucket>) -> u32;

/// Whether a handle owns its entry, rather than borrow it.
pub uninterp spec fn owned(handle: Resource<Bucket>) -> bool;

/// The slots of a resource table that are taken: the name of the bucket where the entry is an open
/// bucket, and `None` where it is of another type.
pub uninterp spec fn entries(table: ResourceTable) -> Map<u32, Option<Seq<char>>>;

/// The taken slots of a resource table whose entries have children.
pub uninterp spec fn parents(table: ResourceTable) -> Set<u32>;

/// The taken slots of a resource table whose entries name a parent that is not in the table, or that
/// does not count them among its children. A request to add a child can leave one behind where it
/// fails.
pub uninterp spec fn orphans(table: ResourceTable) -> Set<u32>;

/// Whether a request to delete the entry of `slot` is answered: an entry that is to go must be one
/// that its parent can be told of.
pub open spec fn deletable(table: ResourceTable, slot: u32) -> bool {
    parents(table).contains(slot) || !orphans(table).contains(slot)
}

/// Whether a resource table refuses new entries: it has no freed slot to use again, and has as many
/// slots as it may have.
pub uninterp spec fn is_full(table: ResourceTable) -> bool;

/// Whether the words that `error` is displayed with are `text`.
pub open spec fn displays(error: ResourceTableError, text: Seq<char>) -> bool {
    forall|s: String| #[trigger]
        to_string_from_display_ensures::<ResourceTableError>(&error, s) ==> s@ == text
}

/// Calls `Resource::owned`.
#[verifier::external_body]
pub(crate) fn is_owned(handle: &Resource<Bucket>) -> (r: bool)
    ensures
        r == owned(*handle),
{
    handle.owned()
}

/// Calls `ResourceTable::push`. A table that is full refuses the bucket and stays as it is. Any
/// other puts it in a slot that was free, where it has neither children nor a parent, and returns an
/// owning handle of that slot.
#[verifier::external_body]
pub(crate) fn push_bucket(table: &mut ResourceTable, bucket: Bucket) -> (r: Result<
    Resource<Bucket>,
    ResourceTableError,
>)
    ensures
        r is Err <==> is_full(*old(table)),
        match r {
            Ok(handle) => {
                &&& owned(handle)
                &&& !entries(*old(table)).contains_key(slot(handle))
                &&& entries(*final(table)) == entries(*old(table)).insert(
                    slot(handle),
                    Some(bucket@),
                )
                &&& parents(*final(table)) == parents(*old(table))
                &&& !parents(*final(table)).contains(slot(handle))
                &&& orphans(*final(table)) == orphans(*old(table))
                &&& !orphans(*final(table)).contains(slot(handle))
            },
            Err(e) => {
                &&& displays(e, "resource table has no free keys"@)
                &&& *final(table) == *old(table)
            },
        },
{
    table.push(bucket)
}

/// Calls `ResourceTable::get`. It returns the entry of the handle's slot where that is a bucket, and
/// tells a free slot from one whose entry is of another type.
#[verifier::external_body]
pub(crate) fn get_bucket<'t>(table: &'t ResourceTable, handle: &Resource<Bucket>) -> (r: Result<
    &'t Bucket,
    ResourceTableError,
>)
    ensures
        match r {
            Ok(bucket) => {
                &&& entries(*table).contains_key(slot(*handle))
                &&& entries(*table)[slot(*handle)] == Some(bucket@)
            },
            Err(e) => {
                &&& !entries(*table).contains_key(slot(*handle)) ==> displays(
                    e,
                    "resource not present"@,
                )
                &&& entries(*table).contains_key(slot(*handle)) ==> entries(*table)[slot(*handle)]
                    is None && displays(e, "resource is of another type"@)
            },
        },
{
    table.get(handle)
}

/// Calls `ResourceTable::delete`. A free slot and one whose entry has children are refused, and the
/// table stays as it is. Otherwise the slot is freed, and can be taken again; the call still fails
/// where the entry was of another type. The parent of a deleted entry may have no children left; no
/// other entry loses one. The function panics where the parent that the entry names is not in the
/// table. It asserts, in builds with debug assertions, that the parent counts the entry among its
/// children, and that the handle owns its entry.
#[verifier::external_body]
pub(crate) fn delete_bucket(table: &mut ResourceTable, handle: Resource<Bucket>) -> (r: Result<
    Bucket,
    ResourceTableError,
>)
    requires
        owned(handle),
        deletable(*old(table), slot(handle)),
    ensures
        ({
            let taken = entries(*old(table)).contains_key(slot(handle));
            let has_children = parents(*old(table)).contains(slot(handle));
            if !taken {
                &&& r matches Err(e) && displays(e, "resource not present"@)
                &&& *final(table) == *old(table)
            } else if has_children {
                &&& r matches Err(e) && displays(e, "resource has children"@)
                &&& *final(table) == *old(table)
            } else {
                &&& match entries(*old(table))[slot(handle)] {
                    Some(name) => r matches Ok(bucket) && bucket@ == name,
                    None => r matches Err(e) && displays(e, "resource is of another type"@),
                }
                &&& entries(*final(table)) == entries(*old(table)).remove(slot(handle))
                &&& exists|parent: u32|
                    parents(*final(table)) == #[trigger] parents(*old(table)).remove(parent)
                &&& orphans(*final(table)) == orphans(*old(table))
                &&& !is_full(*final(table))
            }
        }),
{
    table.delete(handle)
}

} // verus!
