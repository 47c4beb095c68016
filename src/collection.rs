use crate::codec::{decode, encode, json_decode, json_encode};
use crate::error::Error;
use crate::id::{is_id_text, Id};
use vstd::prelude::*;

verus! {

/// How many identifiers an insert draws before it gives up.
pub const MAX_DRAWS: usize = 64;

/// The path of `name` inside the directory `dir`, joined as paths are: an
/// absolute `name` stands alone, an empty `dir` adds nothing, and a
/// separator is added only where `dir` does not already end with one.
pub open spec fn child_path(dir: Seq<char>, name: Seq<char>) -> Seq<char> {
    if name.len() > 0 && name[0] == '/' {
        name
    } else if dir.len() == 0 || dir.last() == '/' {
        dir + name
    } else {
        dir + seq!['/'] + name
    }
}

/// The first character of `s`, if any.
fn first_char(s: &str) -> (r: Option<char>)
    ensures
        r == (if s@.len() == 0 { None } else { Some(s@[0]) }),
{
    let mut first: Option<char> = None;
    for c in it: s.chars()
        invariant
            it.seq() == s@,
            first == (if it.index() == 0 { None::<char> } else { Some(s@[0]) }),
    {
        if first.is_none() {
            first = Some(c);
        }
    }
    first
}

/// The last character of `s`, if any.
fn last_char(s: &str) -> (r: Option<char>)
    ensures
        r == (if s@.len() == 0 { None } else { Some(s@.last()) }),
{
    let mut last: Option<char> = None;
    for c in it: s.chars()
        invariant
            it.seq() == s@,
            last == (if it.index() == 0 { None::<char> } else { Some(s@[it.index() - 1]) }),
    {
        last = Some(c);
    }
    last
}

/// Join a directory path and a name.
fn join(dir: &String, name: &str) -> (r: String)
    ensures
        r@ == child_path(dir@, name@),
{
    if first_char(name) == Some('/') {
        return name.to_owned();
    }
    let mut p = dir.clone();
    let last = last_char(dir.as_str());
    if last.is_some() && last != Some('/') {
        let sep: &str = "/";
        proof {
            reveal_strlit("/");
        }
        p.append(sep);
    }
    p.append(name);
    p
}

/// A file of a collection's directory, as read from it.
#[derive(Clone, Debug, PartialEq, Eq)]
pub struct Entry {
    pub name: String,
    pub content: Vec<u8>,
}

/// A document: its identifier and its payload.
#[derive(Clone, Debug, PartialEq, Eq)]
pub struct Item<T> {
    pub id: Id,
    pub data: T,
}

impl<T> Item<T> {
    pub fn new(id: Id, data: T) -> (r: Item<T>)
        ensures
            r.id == id,
            r.data == data,
    {
        Item { id, data }
    }
}

/// A file that an operation has decided to write: `content` replaces
/// whatever is at `path`, the file of document `id`.
#[derive(Clone, Debug)]
pub struct PendingWrite {
    pub id: Id,
    pub path: String,
    pub content: Vec<u8>,
}

/// Identifier text and payload of an item.
pub open spec fn item_view(item: Item<serde_json::Value>) -> (Seq<char>, serde_json::Value) {
    (item.id@, item.data)
}

/// Identifier texts and payloads of a sequence of items.
pub open spec fn item_views(items: Seq<Item<serde_json::Value>>) -> Seq<(Seq<char>, serde_json::Value)> {
    items.map_values(|x| item_view(x))
}

/// Every entry of the listing is named by identifier text.
pub open spec fn names_are_ids(es: Seq<Entry>) -> bool {
    forall|i: int| 0 <= i < es.len() ==> is_id_text(#[trigger] es[i].name@)
}

/// Every entry of the listing holds JSON text.
pub open spec fn all_decode(es: Seq<Entry>) -> bool {
    forall|i: int| 0 <= i < es.len() ==> (json_decode(#[trigger] es[i].content@) is Some)
}

/// The documents of a listing, in listing order: each entry whose content
/// decodes, as its name and its decoded payload.
pub open spec fn documents(es: Seq<Entry>) -> Seq<(Seq<char>, serde_json::Value)>
    decreases es.len(),
{
    if es.len() == 0 {
        seq![]
    } else {
        let prev = documents(es.drop_last());
        match json_decode(es.last().content@) {
            Some(v) => prev.push((es.last().name@, v)),
            None => prev,
        }
    }
}

/// `picked` is what the predicate `f` keeps of `all`, in order.
pub open spec fn is_selection<T, F: Fn(&Item<T>) -> bool>(
    f: F,
    all: Seq<Item<T>>,
    picked: Seq<Item<T>>,
) -> bool
    decreases all.len(),
{
    if all.len() == 0 {
        picked.len() == 0
    } else {
        ||| (f.ensures((&all.last(),), true) && picked.len() > 0 && picked.last() == all.last()
            && is_selection(f, all.drop_last(), picked.drop_last()))
        ||| (f.ensures((&all.last(),), false) && is_selection(f, all.drop_last(), picked))
    }
}

/// `w` is the rewrite of `item` by the mutator `u`: the file of the same
/// identifier, holding the encoded payload of what `u` returned.
pub open spec fn rewrites<U: Fn(Item<serde_json::Value>) -> Item<serde_json::Value>>(
    u: U,
    dir: Seq<char>,
    item: Item<serde_json::Value>,
    w: PendingWrite,
) -> bool {
    &&& w.id@ == item.id@
    &&& w.path@ == child_path(dir, item.id@)
    &&& exists|m: Item<serde_json::Value>|
        u.ensures((item,), m) && w.content@ == json_encode(m.data)
}

/// Keep the items for which `f` returns true, in order.
pub fn select_items<T, F: Fn(&Item<T>) -> bool>(items: Vec<Item<T>>, f: F) -> (r: Vec<Item<T>>)
    requires
        forall|x: Item<T>| f.requires((&x,)),
    ensures
        is_selection(f, items@, r@),
{
    let ghost all = items@;
    let ghost mut i: int = 0;
    let mut rest = items;
    let mut kept: Vec<Item<T>> = Vec::new();
    while rest.len() > 0
        invariant
            0 <= i <= all.len(),
            rest@ == all.subrange(i, all.len() as int),
            is_selection(f, all.take(i), kept@),
            forall|x: Item<T>| f.requires((&x,)),
        decreases rest.len(),
    {
        let x = rest.remove(0);
        let ghost gx = x;
        let ghost before = kept@;
        proof {
            assert(all.take(i + 1).drop_last() =~= all.take(i));
            assert(all.take(i + 1).last() == gx);
        }
        if f(&x) {
            kept.push(x);
            proof {
                assert(kept@.drop_last() =~= before);
            }
        }
        proof {
            i = i + 1;
        }
    }
    proof {
        assert(all.take(i) =~= all);
    }
    kept
}

/// Decode the documents of a listing, in order. A name that is not
/// identifier text fails the whole read; an entry whose content does not
/// decode is skipped when `lenient`, and fails the whole read otherwise.
fn read_documents(listing: &Vec<Entry>, lenient: bool) -> (r: Result<
    Vec<Item<serde_json::Value>>,
    Error,
>)
    ensures
        r is Ok <==> names_are_ids(listing@) && (lenient || all_decode(listing@)),
        r matches Ok(items) ==> item_views(items@) == documents(listing@),
        r matches Err(e) ==> (e is InvalidId || e is JsonError),
        (lenient || all_decode(listing@)) ==> (r matches Err(e) ==> e is InvalidId),
        names_are_ids(listing@) ==> (r matches Err(e) ==> e is JsonError),
{
    let mut items: Vec<Item<serde_json::Value>> = Vec::new();
    let mut i: usize = 0;
    while i < listing.len()
        invariant
            i <= listing.len(),
            forall|j: int| 0 <= j < i ==> is_id_text(#[trigger] listing@[j].name@),
            !lenient ==> forall|j: int|
                0 <= j < i ==> (json_decode(#[trigger] listing@[j].content@) is Some),
            item_views(items@) == documents(listing@.take(i as int)),
        decreases listing.len() - i,
    {
        let e = &listing[i];
        let id = match Id::parse(e.name.as_str()) {
            Ok(id) => id,
            Err(err) => {
                return Err(err);
            },
        };
        let ghost before = items@;
        proof {
            assert(listing@.take(i + 1).drop_last() =~= listing@.take(i as int));
            assert(listing@.take(i + 1).last() == listing@[i as int]);
        }
        match decode(e.content.as_slice()) {
            Ok(v) => {
                items.push(Item::new(id, v));
                proof {
                    assert(item_views(items@) =~= item_views(before).push(item_view(items@.last())));
                }
            },
            Err(err) => {
                if !lenient {
                    return Err(Error::JsonError(err));
                }
            },
        }
        i = i + 1;
    }
    proof {
        assert(listing@.take(i as int) =~= listing@);
    }
    Ok(items)
}

/// Whether `name` is one of `names`.
fn is_taken(names: &Vec<String>, name: &String) -> (r: bool)
    ensures
        r <==> exists|i: int| 0 <= i < names@.len() && (#[trigger] names@[i])@ == name@,
{
    let mut i: usize = 0;
    while i < names.len()
        invariant
            i <= names.len(),
            forall|j: int| 0 <= j < i ==> (#[trigger] names@[j])@ != name@,
        decreases names.len() - i,
    {
        if names[i] == *name {
            return true;
        }
        i = i + 1;
    }
    false
}

/// A directory of documents.
#[derive(Clone, Debug)]
pub struct Collection {
    root: String,
}

impl View for Collection {
    type V = Seq<char>;

    /// The directory's path.
    closed spec fn view(&self) -> Seq<char> {
        self.root@
    }
}

impl Collection {
    /// The directory's path.
    pub fn path(&self) -> (r: &str)
        ensures
            r@ == self@,
    {
        self.root.as_str()
    }

    /// The path of the file of document `id`.
    pub fn item_path(&self, id: &Id) -> (r: Result<String, Error>)
        ensures
            r matches Ok(p) && p@ == child_path(self@, id@),
    {
        match id.to_str() {
            Ok(name) => Ok(join(&self.root, name)),
            Err(e) => Err(e),
        }
    }

    /// Draw identifiers until one is not among `taken`, the names already in
    /// the directory; `None` once `MAX_DRAWS` draws have all collided. When
    /// no taken name is identifier text, the first draw is free.
    pub fn gen_id(&self, taken: &Vec<String>) -> (r: Option<Id>)
        ensures
            r matches Some(id) ==> is_id_text(id@) && forall|i: int|
                0 <= i < taken@.len() ==> (#[trigger] taken@[i])@ != id@,
            (forall|i: int| 0 <= i < taken@.len() ==> !is_id_text((#[trigger] taken@[i])@))
                ==> r is Some,
    {
        let mut n: usize = 0;
        while n < MAX_DRAWS
            invariant
                n <= MAX_DRAWS,
                (forall|i: int| 0 <= i < taken@.len() ==> !is_id_text((#[trigger] taken@[i])@))
                    ==> n == 0,
            decreases MAX_DRAWS - n,
        {
            let id = Id::random();
            let text = match id.to_str() {
                Ok(s) => s.to_owned(),
                Err(_) => String::new(),
            };
            if !is_taken(taken, &text) {
                return Some(id);
            }
            n = n + 1;
        }
        None
    }

    /// All the documents of the listing. A file whose name is not
    /// identifier text fails the call; a file that does not hold JSON is
    /// skipped.
    pub fn get_all(&self, listing: &Vec<Entry>) -> (r: Result<
        Vec<Item<serde_json::Value>>,
        Error,
    >)
        ensures
            r is Ok <==> names_are_ids(listing@),
            r matches Ok(items) ==> item_views(items@) == documents(listing@),
            r matches Err(e) ==> e is InvalidId,
    {
        read_documents(listing, true)
    }

    /// The documents of the listing that `f` keeps: the documents that
    /// `get_all` returns, filtered by `f`, in the same order.
    pub fn find_many<F: Fn(&Item<serde_json::Value>) -> bool>(
        &self,
        listing: &Vec<Entry>,
        f: F,
    ) -> (r: Result<Vec<Item<serde_json::Value>>, Error>)
        requires
            forall|x: Item<serde_json::Value>| f.requires((&x,)),
        ensures
            r is Ok <==> names_are_ids(listing@),
            r matches Ok(found) ==> exists|all: Seq<Item<serde_json::Value>>|
                item_views(all) == documents(listing@) && is_selection(
                    f,
                    all,
                    found@,
                ),
            r matches Err(e) ==> e is InvalidId,
    {
        match read_documents(listing, true) {
            Ok(items) => {
                let ghost all = items@;
                let found = select_items(items, f);
                assert(item_views(all) == documents(listing@) && is_selection(
                    f,
                    all,
                    found@,
                ));
                Ok(found)
            },
            Err(e) => Err(e),
        }
    }

    /// The document `id`, from the content of its file.
    pub fn get_one(&self, id: &Id, content: &Vec<u8>) -> (r: Result<
        Item<serde_json::Value>,
        Error,
    >)
        ensures
            r is Ok <==> json_decode(content@) is Some,
            r matches Ok(item) ==> item.id@ == id@ && json_decode(content@) == Some(item.data),
            r matches Err(e) ==> e is JsonError,
    {
        match decode(content.as_slice()) {
            Ok(v) => Ok(Item::new(id.clone(), v)),
            Err(e) => Err(Error::JsonError(e)),
        }
    }

    /// Plan the insertion of `data`: a fresh identifier, not among `taken`
    /// (the names already in the directory), and the encoded payload for
    /// its file.
    pub fn insert_one(&self, taken: &Vec<String>, data: &serde_json::Value) -> (r: Result<
        PendingWrite,
        Error,
    >)
        ensures
            r matches Ok(w) ==> {
                &&& is_id_text(w.id@)
                &&& forall|i: int| 0 <= i < taken@.len() ==> (#[trigger] taken@[i])@ != w.id@
                &&& w.path@ == child_path(self@, w.id@)
                &&& w.content@ == json_encode(*data)
            },
            (forall|i: int| 0 <= i < taken@.len() ==> !is_id_text((#[trigger] taken@[i])@))
                ==> r is Ok,
            r matches Err(e) ==> e is NoFreeId,
    {
        let content = match encode(data) {
            Ok(b) => b,
            Err(e) => {
                return Err(Error::JsonError(e));
            },
        };
        let id = match self.gen_id(taken) {
            Some(id) => id,
            None => {
                return Err(Error::NoFreeId);
            },
        };
        let path = match self.item_path(&id) {
            Ok(p) => p,
            Err(e) => {
                return Err(e);
            },
        };
        Ok(PendingWrite { id, path, content })
    }

    /// The file to remove to delete document `id`.
    pub fn delete_one(&self, id: &Id) -> (r: Result<String, Error>)
        ensures
            r matches Ok(p) && p@ == child_path(self@, id@),
    {
        self.item_path(id)
    }

    /// Plan overwriting document `item.id` with `item.data`. The file is
    /// created if it does not exist yet: replacing is an upsert.
    pub fn replace_one(&self, item: &Item<serde_json::Value>) -> (r: Result<
        PendingWrite,
        Error,
    >)
        ensures
            r matches Ok(w) && w.id@ == item.id@ && w.path@ == child_path(self@, item.id@)
                && w.content@ == json_encode(item.data),
    {
        let content = match encode(&item.data) {
            Ok(b) => b,
            Err(e) => {
                return Err(Error::JsonError(e));
            },
        };
        let path = match self.item_path(&item.id) {
            Ok(p) => p,
            Err(e) => {
                return Err(e);
            },
        };
        Ok(PendingWrite { id: item.id.clone(), path, content })
    }

    /// Encode the rewrite of `item` by `u`, under the identifier `item`
    /// had: whatever `u` does to the identifier is not written.
    fn rewrite<U: Fn(Item<serde_json::Value>) -> Item<serde_json::Value>>(
        &self,
        item: Item<serde_json::Value>,
        u: &U,
    ) -> (r: Result<PendingWrite, Error>)
        requires
            forall|x: Item<serde_json::Value>| u.requires((x,)),
        ensures
            r matches Ok(w) && rewrites(*u, self@, item, w),
    {
        let id = item.id.clone();
        let path = match self.item_path(&id) {
            Ok(p) => p,
            Err(e) => {
                return Err(e);
            },
        };
        let ghost gi = item;
        let changed = u(item);
        match encode(&changed.data) {
            Ok(content) => {
                let w = PendingWrite { id, path, content };
                assert(u.ensures((gi,), changed) && w.content@ == json_encode(changed.data));
                Ok(w)
            },
            Err(e) => Err(Error::JsonError(e)),
        }
    }

    /// Plan the update of document `id`, whose file holds `content`: decode
    /// it, let `u` change it, and encode the result back over the same file.
    pub fn update_by_id<U: Fn(Item<serde_json::Value>) -> Item<serde_json::Value>>(
        &self,
        id: &Id,
        content: &Vec<u8>,
        u: U,
    ) -> (r: Result<PendingWrite, Error>)
        requires
            forall|x: Item<serde_json::Value>| u.requires((x,)),
        ensures
            r is Ok <==> json_decode(content@) is Some,
            r matches Err(e) ==> e is JsonError,
            r matches Ok(w) ==> exists|item: Item<serde_json::Value>|
                item.id@ == id@ && json_decode(content@) == Some(item.data) && rewrites(
                    u,
                    self@,
                    item,
                    w,
                ),
    {
        let item = match self.get_one(id, content) {
            Ok(item) => item,
            Err(e) => {
                return Err(e);
            },
        };
        let ghost gi = item;
        let r = self.rewrite(item, &u);
        assert(gi.id@ == id@);
        r
    }

    /// Plan the update of every document of the listing that `f` keeps:
    /// `u` changes each, and each is encoded back over its own file.
    ///
    /// Unlike the reads, a file that does not hold JSON fails the whole
    /// call, as does a name that is not identifier text: either way
    /// nothing is written. Documents that `f` does not keep get no write.
    pub fn update_many<
        F: Fn(&Item<serde_json::Value>) -> bool,
        U: Fn(Item<serde_json::Value>) -> Item<serde_json::Value>,
    >(&self, listing: &Vec<Entry>, f: F, u: U) -> (r: Result<Vec<PendingWrite>, Error>)
        requires
            forall|x: Item<serde_json::Value>| f.requires((&x,)),
            forall|x: Item<serde_json::Value>| u.requires((x,)),
        ensures
            r is Ok <==> names_are_ids(listing@) && all_decode(listing@),
            !names_are_ids(listing@) && all_decode(listing@) ==> (r matches Err(e)
                && e is InvalidId),
            names_are_ids(listing@) && !all_decode(listing@) ==> (r matches Err(e)
                && e is JsonError),
            r matches Err(e) ==> e is InvalidId || e is JsonError,
            r matches Ok(writes) ==> exists|
                all: Seq<Item<serde_json::Value>>,
                picked: Seq<Item<serde_json::Value>>,
            |
                {
                    &&& item_views(all) == documents(listing@)
                    &&& is_selection(f, all, picked)
                    &&& writes@.len() == picked.len()
                    &&& forall|j: int|
                        0 <= j < picked.len() ==> rewrites(u, self@, #[trigger] picked[j], writes@[j])
                },
    {
        let items = match read_documents(listing, false) {
            Ok(items) => items,
            Err(e) => {
                return Err(e);
            },
        };
        let ghost all = items@;
        let ghost mut picked: Seq<Item<serde_json::Value>> = seq![];
        let ghost mut i: int = 0;
        let mut rest = items;
        let mut writes: Vec<PendingWrite> = Vec::new();
        while rest.len() > 0
            invariant
                0 <= i <= all.len(),
                names_are_ids(listing@) && all_decode(listing@),
                rest@ == all.subrange(i, all.len() as int),
                is_selection(f, all.take(i), picked),
                writes@.len() == picked.len(),
                forall|j: int|
                    0 <= j < picked.len() ==> rewrites(u, self@, #[trigger] picked[j], writes@[j]),
                forall|x: Item<serde_json::Value>| f.requires((&x,)),
                forall|x: Item<serde_json::Value>| u.requires((x,)),
            decreases rest.len(),
        {
            let x = rest.remove(0);
            let ghost gx = x;
            proof {
                assert(all.take(i + 1).drop_last() =~= all.take(i));
                assert(all.take(i + 1).last() == gx);
            }
            if f(&x) {
                match self.rewrite(x, &u) {
                    Ok(w) => {
                        writes.push(w);
                        proof {
                            let before = picked;
                            picked = picked.push(gx);
                            assert(picked.drop_last() =~= before);
                            assert forall|j: int| 0 <= j < picked.len() implies rewrites(
                                u,
                                self@,
                                #[trigger] picked[j],
                                writes@[j],
                            ) by {
                                if j < before.len() {
                                    assert(picked[j] == before[j]);
                                }
                            }
                        }
                    },
                    Err(e) => {
                        return Err(e);
                    },
                }
            }
            proof {
                i = i + 1;
            }
        }
        proof {
            assert(all.take(i) =~= all);
        }
        Ok(writes)
    }
}

/// A database: a root directory whose subdirectories are its collections.
#[derive(Clone, Debug)]
pub struct Db {
    root: String,
}

impl View for Db {
    type V = Seq<char>;

    /// The root directory's path.
    closed spec fn view(&self) -> Seq<char> {
        self.root@
    }
}

impl Db {
    /// The database rooted at `root`.
    pub fn open(root: &str) -> (r: Db)
        ensures
            r@ == root@,
    {
        Db { root: root.to_owned() }
    }

    /// The collection `name`: the subdirectory of that name.
    pub fn collection(&self, name: &str) -> (r: Collection)
        ensures
            r@ == child_path(self@, name@),
    {
        Collection { root: join(&self.root, name) }
    }
}

} // verus!
