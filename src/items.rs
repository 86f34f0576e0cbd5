//! A collection of prompt/response records, each under an identifier that is
//! one more than the largest one before it.
use vstd::prelude::*;
use crate::error::ChatError;

verus! {

/// One stored prompt and the response it received.
#[derive(Debug, Clone)]
pub struct Item {
    pub id: u64,
    pub prompt: String,
    pub response: String,
}

/// A record as plain values.
pub struct ItemModel {
    pub id: nat,
    pub prompt: Seq<char>,
    pub response: Seq<char>,
}

impl View for Item {
    type V = ItemModel;

    open spec fn view(&self) -> ItemModel {
        ItemModel { id: self.id as nat, prompt: self.prompt@, response: self.response@ }
    }
}

/// The largest identifier among the records, 0 where there are none.
pub open spec fn max_id(s: Seq<ItemModel>) -> nat
    decreases s.len(),
{
    if s.len() == 0 {
        0
    } else {
        let m = max_id(s.drop_last());
        if s.last().id > m {
            s.last().id
        } else {
            m
        }
    }
}

/// Whether some record carries `id`.
pub open spec fn has_id(s: Seq<ItemModel>, id: nat) -> bool {
    exists|i: int| 0 <= i < s.len() && s[i].id == id
}

/// Identifiers rise strictly from each record to the next.
pub open spec fn ids_ascending(s: Seq<ItemModel>) -> bool {
    forall|i: int, j: int| 0 <= i < j < s.len() ==> s[i].id < s[j].id
}

/// The records, in the order in which they were created.
pub struct ItemStore {
    items: Vec<Item>,
}

impl View for ItemStore {
    type V = Seq<ItemModel>;

    closed spec fn view(&self) -> Seq<ItemModel> {
        self.items@.map_values(|i: Item| i@)
    }
}

proof fn lemma_max_id_is_last(s: Seq<ItemModel>)
    requires
        ids_ascending(s),
        s.len() > 0,
    ensures
        max_id(s) == s.last().id,
    decreases s.len(),
{
    let t = s.drop_last();
    if s.len() > 1 {
        assert forall|i: int, j: int| 0 <= i < j < t.len() implies t[i].id < t[j].id by {
            assert(t[i] == s[i] && t[j] == s[j]);
        }
        lemma_max_id_is_last(t);
        assert(t.last() == s[s.len() - 2]);
    } else {
        assert(max_id(t) == 0);
    }
}

impl ItemStore {
    /// Identifiers are unique and rise in the order of the records.
    pub open spec fn wf(&self) -> bool {
        ids_ascending(self@)
    }

    /// An empty collection.
    pub fn new() -> (r: ItemStore)
        ensures
            r.wf(),
            r@.len() == 0,
    {
        ItemStore { items: Vec::new() }
    }

    /// The records, in order.
    pub fn items(&self) -> (r: &[Item])
        ensures
            r@.map_values(|i: Item| i@) == self@,
    {
        self.items.as_slice()
    }

    /// The number of records.
    pub fn len(&self) -> (r: usize)
        ensures
            r == self@.len(),
    {
        self.items.len()
    }

    /// The largest identifier in use, 0 where there is none.
    pub fn max_id(&self) -> (r: u64)
        requires
            self.wf(),
        ensures
            r == max_id(self@),
    {
        let n = self.items.len();
        if n == 0 {
            0
        } else {
            proof {
                lemma_max_id_is_last(self@);
            }
            self.items[n - 1].id
        }
    }

    /// The position of the record that carries `id`, if any.
    fn position(&self, id: u64) -> (r: Option<usize>)
        requires
            self.wf(),
        ensures
            match r {
                Some(i) => i < self@.len() && self@[i as int].id == id,
                None => !has_id(self@, id as nat),
            },
    {
        let mut i: usize = 0;
        while i < self.items.len()
            invariant
                i <= self@.len(),
                forall|j: int| 0 <= j < i ==> self@[j].id != id,
            decreases self.items.len() - i,
        {
            if self.items[i].id == id {
                return Some(i);
            }
            i = i + 1;
        }
        None
    }

    /// Adds a record under one more than the largest identifier in use (1 in an
    /// empty collection) and returns that identifier.
    pub fn create(&mut self, prompt: String, response: String) -> (id: u64)
        requires
            old(self).wf(),
            max_id(old(self)@) < u64::MAX,
        ensures
            final(self).wf(),
            id == max_id(old(self)@) + 1,
            max_id(final(self)@) == id,
            final(self)@ == old(self)@.push(
                ItemModel { id: id as nat, prompt: prompt@, response: response@ },
            ),
    {
        let id = self.max_id() + 1;
        let item = Item { id, prompt, response };
        proof {
            if old(self)@.len() > 0 {
                lemma_max_id_is_last(old(self)@);
            }
        }
        self.items.push(item);
        assert(self@ =~= old(self)@.push(item@));
        assert(self@.drop_last() =~= old(self)@);
        id
    }

    /// Replaces the prompt and response of the record that carries `id`;
    /// fails with `NotFound`, changing nothing, where no record does.
    pub fn update(&mut self, id: u64, prompt: String, response: String) -> (r: Result<(), ChatError>)
        requires
            old(self).wf(),
        ensures
            final(self).wf(),
            has_id(old(self)@, id as nat) <==> r is Ok,
            r is Err ==> r == Err::<(), ChatError>(ChatError::NotFound) && final(self)@ == old(
                self,
            )@,
            r is Ok ==> exists|i: int|
                0 <= i < old(self)@.len() && old(self)@[i].id == id && final(self)@ == old(
                    self,
                )@.update(i, ItemModel { id: id as nat, prompt: prompt@, response: response@ }),
    {
        match self.position(id) {
            None => Err(ChatError::NotFound),
            Some(i) => {
                let item = Item { id, prompt, response };
                self.items.set(i, item);
                assert(self@ =~= old(self)@.update(i as int, item@));
                Ok(())
            },
        }
    }

    /// Removes the record that carries `id`, keeping the others in order;
    /// fails with `NotFound`, changing nothing, where no record does.
    pub fn delete(&mut self, id: u64) -> (r: Result<(), ChatError>)
        requires
            old(self).wf(),
        ensures
            final(self).wf(),
            has_id(old(self)@, id as nat) <==> r is Ok,
            r is Err ==> r == Err::<(), ChatError>(ChatError::NotFound) && final(self)@ == old(
                self,
            )@,
            r is Ok ==> exists|i: int|
                0 <= i < old(self)@.len() && old(self)@[i].id == id && final(self)@ == old(
                    self,
                )@.remove(i),
    {
        match self.position(id) {
            None => Err(ChatError::NotFound),
            Some(i) => {
                self.items.remove(i);
                assert(self@ =~= old(self)@.remove(i as int));
                Ok(())
            },
        }
    }
}

} // verus!
