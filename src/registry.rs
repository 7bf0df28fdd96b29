use crate::text::{str_eq, utf8_bytes};
use vstd::prelude::*;
use vstd::string::StringExecFns;
use vstd::utf8::encode_utf8;

verus! {

/// No two entries have the same name.
pub open spec fn names_distinct<H>(entries: Seq<(Seq<char>, H)>) -> bool {
    forall|i: int, j: int|
        0 <= i < entries.len() && 0 <= j < entries.len() && i != j ==> entries[i].0
            != entries[j].0
}

/// Some entry has this name.
pub open spec fn has_name<H>(entries: Seq<(Seq<char>, H)>, name: Seq<char>) -> bool {
    exists|i: int| 0 <= i < entries.len() && entries[i].0 == name
}

/// Where the store of `name` lives under `root`.
pub open spec fn db_path_spec(root: Seq<char>, name: Seq<char>) -> Seq<char> {
    root + seq!['/'] + name
}

/// After a detach, the name is no longer attached: the next attach of it
/// opens its store anew and adds that new handle. Detaching touches no handle:
/// those that sessions already hold stay theirs.
pub proof fn lemma_detach_then_attach_reopens<H>(
    entries: Seq<(Seq<char>, H)>,
    i: int,
    reopened: H,
)
    requires
        names_distinct(entries),
        0 <= i < entries.len(),
    ensures
        !has_name(entries.remove(i), entries[i].0),
        names_distinct(entries.remove(i)),
        entries.remove(i).push((entries[i].0, reopened)).last() == (entries[i].0, reopened),
        forall|j: int|
            0 <= j < entries.len() && j != i ==> #[trigger] entries.remove(i).contains(entries[j]),
{
    let rest = entries.remove(i);
    assert forall|j: int| 0 <= j < entries.len() && j != i implies #[trigger] rest.contains(
        entries[j],
    ) by {
        if j < i {
            assert(rest[j] == entries[j]);
        } else {
            assert(rest[j - 1] == entries[j]);
        }
    }
    assert forall|k: int| 0 <= k < rest.len() implies rest[k].0 != entries[i].0 by {
        if k < i {
            assert(rest[k] == entries[k]);
        } else {
            assert(rest[k] == entries[k + 1]);
        }
    }
    assert forall|a: int, b: int|
        0 <= a < rest.len() && 0 <= b < rest.len() && a != b implies rest[a].0 != rest[b].0 by {
        let ea = if a < i { a } else { a + 1 };
        let eb = if b < i { b } else { b + 1 };
        assert(rest[a] == entries[ea]);
        assert(rest[b] == entries[eb]);
    }
}

/// The table of attached databases: each name with the handle of its open
/// store. A handle is shared: taking a database out of the table does not
/// close it for those who hold a handle to it.
pub struct MultiDB<H> {
    storage: Vec<(String, H)>,
    root_path: String,
}

impl<H> View for MultiDB<H> {
    /// The entries, in the order in which they were attached.
    type V = Seq<(Seq<char>, H)>;

    closed spec fn view(&self) -> Seq<(Seq<char>, H)> {
        self.storage@.map_values(|e: (String, H)| (e.0@, e.1))
    }
}

impl<H> MultiDB<H> {
    /// Each name is attached at most once.
    pub closed spec fn wf(&self) -> bool {
        names_distinct(self@)
    }

    /// The directory under which each database has its own.
    pub closed spec fn root(&self) -> Seq<char> {
        self.root_path@
    }

    /// An empty table for databases under `root_path`.
    pub fn new(root_path: &str) -> (r: Self)
        ensures
            r.wf(),
            r@ == Seq::<(Seq<char>, H)>::empty(),
            r.root() == root_path@,
    {
        let r = MultiDB { storage: Vec::new(), root_path: String::from_str(root_path) };
        assert(r@ =~= Seq::<(Seq<char>, H)>::empty());
        r
    }

    fn find(&self, name: &str) -> (r: Option<usize>)
        ensures
            match r {
                Some(i) => i < self@.len() && self@[i as int].0 == name@,
                None => !has_name(self@, name@),
            },
    {
        let mut i: usize = 0;
        while i < self.storage.len()
            invariant
                i <= self@.len(),
                self@.len() == self.storage@.len(),
                forall|j: int| 0 <= j < i ==> self@[j].0 != name@,
            decreases self.storage@.len() - i,
        {
            if str_eq(self.storage[i].0.as_str(), name) {
                return Some(i);
            }
            i += 1;
        }
        None
    }

    /// The handle attached under `name`, if any.
    pub fn get_db(&self, name: &str) -> (r: Option<&H>)
        ensures
            r is Some <==> has_name(self@, name@),
            r matches Some(h) ==> exists|i: int|
                0 <= i < self@.len() && self@[i] == (name@, *h),
    {
        match self.find(name) {
            Some(i) => {
                assert(self@[i as int] == (name@, self.storage@[i as int].1));
                Some(&self.storage[i].1)
            },
            None => None,
        }
    }

    /// Where the store of `name` lives: the root directory, a slash, the name.
    pub fn db_path(&self, name: &str) -> (r: String)
        ensures
            r@ == db_path_spec(self.root(), name@),
    {
        let mut p = self.root_path.clone();
        p.append("/");
        p.append(name);
        proof {
            reveal_strlit("/");
        }
        assert(p@ =~= db_path_spec(self.root(), name@));
        p
    }

    /// Attaches `opened`, a handle to the store just opened at
    /// `db_path(name)`, under `name`. Where `name` is attached already the
    /// table keeps its handle and `opened` is let go: one store per name.
    pub fn attach(&mut self, name: &str, opened: H)
        requires
            old(self).wf(),
        ensures
            final(self).wf(),
            final(self).root() == old(self).root(),
            has_name(old(self)@, name@) ==> final(self)@ == old(self)@,
            !has_name(old(self)@, name@) ==> final(self)@ == old(self)@.push((name@, opened)),
    {
        match self.find(name) {
            Some(_) => {},
            None => {
                let ghost before = self@;
                self.storage.push((String::from_str(name), opened));
                assert(self@ =~= before.push((name@, opened)));
            },
        }
    }

    /// Takes `name` out of the table; nothing happens where it is absent.
    /// Handles held elsewhere stay valid.
    pub fn detach(&mut self, name: &str)
        requires
            old(self).wf(),
        ensures
            final(self).wf(),
            final(self).root() == old(self).root(),
            !has_name(old(self)@, name@) ==> final(self)@ == old(self)@,
            forall|i: int|
                0 <= i < old(self)@.len() && old(self)@[i].0 == name@ ==> final(self)@ == old(
                    self,
                )@.remove(i),
    {
        match self.find(name) {
            Some(i) => {
                let ghost before = self@;
                self.storage.remove(i);
                assert(self@ =~= before.remove(i as int));
            },
            None => {},
        }
    }

    /// The names attached now, as UTF-8 bytes, in the table's order.
    pub fn list_db(&self) -> (r: Vec<Vec<u8>>)
        ensures
            r@.len() == self@.len(),
            forall|i: int| 0 <= i < r@.len() ==> #[trigger] r@[i]@ == encode_utf8(self@[i].0),
    {
        let mut r: Vec<Vec<u8>> = Vec::new();
        let mut i: usize = 0;
        while i < self.storage.len()
            invariant
                i <= self@.len(),
                self@.len() == self.storage@.len(),
                r@.len() == i,
                forall|j: int| 0 <= j < i ==> #[trigger] r@[j]@ == encode_utf8(self@[j].0),
            decreases self.storage@.len() - i,
        {
            r.push(utf8_bytes(self.storage[i].0.as_str()));
            i += 1;
        }
        r
    }
}

} // verus!
