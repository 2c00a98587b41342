use crate::error::LedgerError;
use crate::identity::Identity;
use crate::metadata::Metadata;
use vstd::prelude::*;

verus! {

/// The number of a record. Numbers are handed out in order, starting at 0.
pub type TokenId = u64;

/// What the ledger holds of one record: whose it is, and its fields.
pub struct Record {
    pub owner: Identity,
    pub metadata: Map<Seq<char>, Seq<char>>,
}

/// The numbers of the records in `records` that belong to `owner`, in the
/// order in which they were minted. The number of a record is its position.
pub open spec fn owned_by(records: Seq<Record>, owner: Identity) -> Seq<nat>
    decreases records.len(),
{
    if records.len() == 0 {
        Seq::empty()
    } else {
        let earlier = owned_by(records.drop_last(), owner);
        if records.last().owner == owner {
            earlier.push((records.len() - 1) as nat)
        } else {
            earlier
        }
    }
}

/// A new record goes to the end of its owner's list; nobody else's list
/// changes.
pub proof fn lemma_owned_by_push(records: Seq<Record>, record: Record, owner: Identity)
    ensures
        owned_by(records.push(record), owner) == if record.owner == owner {
            owned_by(records, owner).push(records.len())
        } else {
            owned_by(records, owner)
        },
{
    assert(records.push(record).drop_last() =~= records);
}

/// The list of an owner's records holds exactly the records of that owner,
/// each once, in the order in which they were minted.
pub proof fn lemma_owned_by_lists_records_of_owner(records: Seq<Record>, owner: Identity)
    ensures
        forall|k: int|
            0 <= k < owned_by(records, owner).len() ==> (#[trigger] owned_by(records, owner)[k])
                < records.len() && records[owned_by(records, owner)[k] as int].owner == owner,
        forall|j: int, k: int|
            0 <= j < k < owned_by(records, owner).len() ==> (#[trigger] owned_by(records, owner)[j])
                < (#[trigger] owned_by(records, owner)[k]),
        forall|id: int|
            0 <= id < records.len() && (#[trigger] records[id]).owner == owner ==> owned_by(
                records,
                owner,
            ).contains(id as nat),
    decreases records.len(),
{
    if records.len() > 0 {
        let earlier = records.drop_last();
        let last = (records.len() - 1) as nat;
        lemma_owned_by_lists_records_of_owner(earlier, owner);
        let list = owned_by(records, owner);
        let shorter = owned_by(earlier, owner);
        assert forall|id: int|
            0 <= id < records.len() && (#[trigger] records[id]).owner == owner implies list.contains(
            id as nat,
        ) by {
            if id < last {
                assert(earlier[id].owner == owner);
                let k = choose|k: int| 0 <= k < shorter.len() && shorter[k] == id as nat;
                assert(list[k] == id as nat);
            } else {
                assert(list[list.len() - 1] == id as nat);
            }
        }
        assert forall|k: int| 0 <= k < list.len() implies (#[trigger] list[k]) < records.len()
            && records[list[k] as int].owner == owner by {
            if k < shorter.len() {
                assert(list[k] == shorter[k]);
                assert(earlier[shorter[k] as int] == records[shorter[k] as int]);
            }
        }
        assert forall|j: int, k: int| 0 <= j < k < list.len() implies (#[trigger] list[j]) < (
        #[trigger] list[k]) by {
            assert(list[j] == shorter[j]);
            if k < shorter.len() {
                assert(list[k] == shorter[k]);
            }
        }
    }
}

/// The numbers that a ledger holding `start` gives out when `mints` are
/// minted on it one after another: each record gets the number of records
/// that the ledger held just before.
pub open spec fn numbers_given(start: Seq<Record>, mints: Seq<Record>) -> Seq<nat>
    decreases mints.len(),
{
    if mints.len() == 0 {
        Seq::empty()
    } else {
        numbers_given(start, mints.drop_last()).push((start + mints.drop_last()).len())
    }
}

/// Successive mints are numbered without gaps and without repeats, whoever
/// the owners are: the numbers count up by one from the number of records
/// that were there before, so from 0 on a new ledger.
pub proof fn lemma_numbers_count_up(start: Seq<Record>, mints: Seq<Record>)
    ensures
        numbers_given(start, mints).len() == mints.len(),
        forall|i: int|
            0 <= i < mints.len() ==> (#[trigger] numbers_given(start, mints)[i]) == start.len() + i,
    decreases mints.len(),
{
    if mints.len() > 0 {
        lemma_numbers_count_up(start, mints.drop_last());
    }
}

/// Minting never touches the records that are there: whatever is minted
/// later, a record keeps its number, its owner and its fields.
pub proof fn lemma_records_stay(records: Seq<Record>, later: Seq<Record>, id: int)
    requires
        0 <= id < records.len(),
    ensures
        (records + later)[id] == records[id],
{
}

/// Minting only adds to the end of an owner's list: whatever is minted
/// later, the list starts with what it was.
pub proof fn lemma_owner_list_grows(records: Seq<Record>, later: Seq<Record>, owner: Identity)
    ensures
        owned_by(records, owner).len() <= owned_by(records + later, owner).len(),
        forall|k: int|
            0 <= k < owned_by(records, owner).len() ==> #[trigger] owned_by(
                records + later,
                owner,
            )[k] == owned_by(records, owner)[k],
    decreases later.len(),
{
    if later.len() == 0 {
        assert(records + later =~= records);
    } else {
        let shorter = records + later.drop_last();
        lemma_owner_list_grows(records, later.drop_last(), owner);
        assert(records + later =~= shorter.push(later.last()));
        lemma_owned_by_push(shorter, later.last(), owner);
        assert forall|k: int| 0 <= k < owned_by(records, owner).len() implies #[trigger] owned_by(
            records + later,
            owner,
        )[k] == owned_by(records, owner)[k] by {
            assert(owned_by(shorter, owner)[k] == owned_by(records, owner)[k]);
        }
    }
}

/// A minted record.
#[derive(Clone, Debug, PartialEq, Eq)]
struct Token {
    owner: Identity,
    metadata: Metadata,
}

/// The records of one owner.
#[derive(Clone, Debug, PartialEq, Eq)]
struct Holding {
    owner: Identity,
    tokens: Vec<TokenId>,
}

/// The records that were minted: for each its owner and its fields, and for
/// each owner the list of its records.
///
/// Records are only ever added. A record keeps its number, its owner and its
/// fields for good.
#[derive(Clone, Debug, PartialEq, Eq)]
pub struct TokenLedger {
    tokens: Vec<Token>,
    holdings: Vec<Holding>,
}

impl View for TokenLedger {
    type V = Seq<Record>;

    /// All records in the order in which they were minted.
    closed spec fn view(&self) -> Seq<Record> {
        self.tokens@.map_values(|t: Token| Record { owner: t.owner, metadata: t.metadata@ })
    }
}

impl TokenLedger {
    /// Whether the list kept for one owner is that owner's records.
    spec fn holding_matches(&self, k: int) -> bool {
        let holding = self.holdings@[k];
        let owned = owned_by(self@, holding.owner);
        &&& holding.tokens@.len() == owned.len()
        &&& forall|n: int| 0 <= n < owned.len() ==> #[trigger] holding.tokens@[n] == owned[n]
    }

    /// What every ledger satisfies: each record's fields are well formed, no
    /// owner has two lists, each list holds exactly its owner's records in
    /// the order of minting, and who has no list has no records.
    /// [`TokenLedger::new`] establishes it and [`TokenLedger::mint`] keeps it.
    pub closed spec fn wf(&self) -> bool {
        &&& forall|i: int| 0 <= i < self.tokens@.len() ==> (#[trigger] self.tokens@[i]).metadata.wf()
        &&& forall|j: int, k: int|
            0 <= j < k < self.holdings@.len() ==> (#[trigger] self.holdings@[j]).owner
                != (#[trigger] self.holdings@[k]).owner
        &&& forall|k: int| 0 <= k < self.holdings@.len() ==> #[trigger] self.holding_matches(k)
        &&& forall|owner: Identity|
            (forall|k: int|
                0 <= k < self.holdings@.len() ==> (#[trigger] self.holdings@[k]).owner != owner)
                ==> (#[trigger] owned_by(self@, owner)).len() == 0
    }

    /// A ledger without records.
    pub fn new() -> (ledger: TokenLedger)
        ensures
            ledger.wf(),
            ledger@ == Seq::<Record>::empty(),
    {
        let ledger = TokenLedger { tokens: Vec::new(), holdings: Vec::new() };
        assert(ledger@ =~= Seq::<Record>::empty());
        ledger
    }

    /// The number of records minted so far, which is also the number that the
    /// next record will get.
    pub fn total_supply(&self) -> (count: u64)
        ensures
            count == self@.len(),
    {
        self.tokens.len() as u64
    }

    /// Where the list of `owner` is kept, if `owner` has one.
    fn holding_of(&self, owner: Identity) -> (found: Option<usize>)
        ensures
            match found {
                Some(k) => k < self.holdings@.len() && self.holdings@[k as int].owner == owner,
                None => forall|k: int|
                    0 <= k < self.holdings@.len() ==> (#[trigger] self.holdings@[k]).owner
                        != owner,
            },
    {
        let mut k: usize = 0;
        while k < self.holdings.len()
            invariant
                k <= self.holdings@.len(),
                forall|j: int| 0 <= j < k ==> (#[trigger] self.holdings@[j]).owner != owner,
            decreases self.holdings@.len() - k,
        {
            if self.holdings[k].owner == owner {
                return Some(k);
            }
            k += 1;
        }
        None
    }

    /// Mints a record for `owner` with the given fields and returns its number.
    ///
    /// The ledger does not look at `caller`: whoever calls decides who may
    /// mint. Any identity can own records.
    pub fn mint(&mut self, caller: Identity, owner: Identity, metadata: Metadata) -> (id: TokenId)
        requires
            old(self).wf(),
            metadata.wf(),
        ensures
            final(self).wf(),
            id == old(self)@.len(),
            final(self)@ == old(self)@.push(Record { owner, metadata: metadata@ }),
    {
        let ghost record = Record { owner, metadata: metadata@ };
        let ghost before = self@;
        let id = self.tokens.len() as u64;
        let place = self.holding_of(owner);
        self.tokens.push(Token { owner, metadata });
        assert(self@ =~= before.push(record));
        proof {
            assert forall|o: Identity| true implies #[trigger] owned_by(self@, o) == if o == owner {
                owned_by(before, o).push(before.len())
            } else {
                owned_by(before, o)
            } by {
                lemma_owned_by_push(before, record, o);
            }
        }
        assert(forall|i: int|
            0 <= i < self.tokens@.len() ==> (#[trigger] self.tokens@[i]).metadata.wf());
        match place {
            Some(k) => {
                self.holdings[k].tokens.push(id);
                proof {
                    let kept = old(self).holdings@;
                    let now = self.holdings@;
                    assert forall|j: int| 0 <= j < now.len() implies #[trigger] self.holding_matches(
                        j,
                    ) by {
                        assert(old(self).holding_matches(j));
                        if j != k {
                            assert(now[j] == kept[j]);
                        }
                    }
                    assert forall|o: Identity|
                        (forall|j: int| 0 <= j < now.len() ==> (#[trigger] now[j]).owner != o)
                        implies (#[trigger] owned_by(self@, o)).len() == 0 by {
                        assert(now[k as int].owner == owner);
                        assert forall|j: int| 0 <= j < kept.len() implies (#[trigger] kept[j]).owner
                            != o by {
                            assert(now[j].owner == kept[j].owner);
                        }
                        assert(owned_by(before, o).len() == 0);
                    }
                }
            },
            None => {
                let mut tokens: Vec<TokenId> = Vec::new();
                tokens.push(id);
                self.holdings.push(Holding { owner, tokens });
                proof {
                    let kept = old(self).holdings@;
                    let now = self.holdings@;
                    assert forall|j: int| 0 <= j < now.len() implies #[trigger] self.holding_matches(
                        j,
                    ) by {
                        if j < kept.len() {
                            assert(old(self).holding_matches(j));
                            assert(now[j] == kept[j]);
                        }
                    }
                    assert forall|o: Identity|
                        (forall|j: int| 0 <= j < now.len() ==> (#[trigger] now[j]).owner != o)
                        implies (#[trigger] owned_by(self@, o)).len() == 0 by {
                        assert(now[kept.len() as int].owner == owner);
                        assert forall|j: int| 0 <= j < kept.len() implies (#[trigger] kept[j]).owner
                            != o by {
                            assert(now[j] == kept[j]);
                        }
                        assert(owned_by(before, o).len() == 0);
                    }
                }
            },
        }
        id
    }

    /// The owner of record `id`.
    pub fn get_owner(&self, id: TokenId) -> (result: Result<Identity, LedgerError>)
        ensures
            id < self@.len() ==> result == Ok::<Identity, LedgerError>(self@[id as int].owner),
            id >= self@.len() ==> result == Err::<Identity, LedgerError>(LedgerError::NotFound),
    {
        if id < self.tokens.len() as u64 {
            Ok(self.tokens[id as usize].owner)
        } else {
            Err(LedgerError::NotFound)
        }
    }

    /// The fields of record `id`.
    pub fn get_metadata(&self, id: TokenId) -> (result: Result<&Metadata, LedgerError>)
        requires
            self.wf(),
        ensures
            id < self@.len() ==> result.is_ok() && result.unwrap()@ == self@[id as int].metadata
                && result.unwrap().wf(),
            id >= self@.len() ==> result == Err::<&Metadata, LedgerError>(LedgerError::NotFound),
    {
        if id < self.tokens.len() as u64 {
            Ok(&self.tokens[id as usize].metadata)
        } else {
            Err(LedgerError::NotFound)
        }
    }

    /// How many records `owner` has.
    pub fn balance_of(&self, owner: Identity) -> (count: usize)
        requires
            self.wf(),
        ensures
            count == owned_by(self@, owner).len(),
    {
        match self.holding_of(owner) {
            Some(k) => {
                assert(self.holding_matches(k as int));
                self.holdings[k].tokens.len()
            },
            None => 0,
        }
    }

    /// The number of the record that `owner` received as its `seq`-th,
    /// counted from 0, or nothing if `owner` has no more than `seq` records.
    pub fn get_by_owner_index(&self, owner: Identity, seq: u32) -> (id: Option<TokenId>)
        requires
            self.wf(),
        ensures
            seq < owned_by(self@, owner).len() ==> id.is_some() && id.unwrap() == owned_by(
                self@,
                owner,
            )[seq as int],
            seq >= owned_by(self@, owner).len() ==> id.is_none(),
    {
        match self.holding_of(owner) {
            Some(k) => {
                assert(self.holding_matches(k as int));
                let tokens = &self.holdings[k].tokens;
                if (seq as usize) < tokens.len() {
                    Some(tokens[seq as usize])
                } else {
                    None
                }
            },
            None => None,
        }
    }
}

} // verus!
