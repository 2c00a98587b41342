use crate::error::LedgerError;
use crate::identity::Identity;
use crate::ledger::{owned_by, Record, TokenId, TokenLedger};
use crate::metadata::Metadata;
use crate::registry::RoleRegistry;
use crate::text::{decimal, decimal_text};
use vstd::prelude::*;
use vstd::string::StringExecFns;

verus! {

/// The fields of a grade: the subject, the school year, the kind of work that
/// was graded and the grade itself, the two numbers written in decimal.
pub open spec fn grade_fields(
    subject: Seq<char>,
    year: nat,
    grade_type: Seq<char>,
    grade: nat,
) -> Map<Seq<char>, Seq<char>> {
    Map::<Seq<char>, Seq<char>>::empty().insert("subject"@, subject).insert(
        "year"@,
        decimal(year),
    ).insert("grade_type"@, grade_type).insert("grade"@, decimal(grade))
}

/// A grade has exactly the four fields `subject`, `year`, `grade_type` and
/// `grade`, each with the value that was given for it.
pub proof fn lemma_grade_fields(subject: Seq<char>, year: nat, grade_type: Seq<char>, grade: nat)
    ensures
        grade_fields(subject, year, grade_type, grade).dom() =~= set![
            "subject"@,
            "year"@,
            "grade_type"@,
            "grade"@,
        ],
        grade_fields(subject, year, grade_type, grade)["subject"@] == subject,
        grade_fields(subject, year, grade_type, grade)["year"@] == decimal(year),
        grade_fields(subject, year, grade_type, grade)["grade_type"@] == grade_type,
        grade_fields(subject, year, grade_type, grade)["grade"@] == decimal(grade),
{
    reveal_strlit("subject");
    reveal_strlit("year");
    reveal_strlit("grade_type");
    reveal_strlit("grade");
    assert("subject"@.len() == 7);
    assert("year"@.len() == 4);
    assert("grade_type"@.len() == 10);
    assert("grade"@.len() == 5);
}

/// Builds the fields of a grade.
pub fn grade_metadata(subject: String, year: u32, grade_type: String, grade: u32) -> (metadata:
    Metadata)
    ensures
        metadata.wf(),
        metadata@ == grade_fields(subject@, year as nat, grade_type@, grade as nat),
{
    let mut metadata = Metadata::new();
    metadata.insert(String::from_str("subject"), subject);
    metadata.insert(String::from_str("year"), decimal_text(year));
    metadata.insert(String::from_str("grade_type"), grade_type);
    metadata.insert(String::from_str("grade"), decimal_text(grade));
    metadata
}

/// Decides on a request to issue a grade, given whether the one who asks is a
/// teacher: a teacher gets the fields of the grade, anyone else is refused.
pub fn authorize_grade(
    is_teacher: bool,
    subject: String,
    year: u32,
    grade_type: String,
    grade: u32,
) -> (result: Result<Metadata, LedgerError>)
    ensures
        is_teacher ==> result.is_ok() && result.unwrap().wf() && result.unwrap()@ == grade_fields(
            subject@,
            year as nat,
            grade_type@,
            grade as nat,
        ),
        !is_teacher ==> result == Err::<Metadata, LedgerError>(LedgerError::Unauthorized),
{
    if !is_teacher {
        return Err(LedgerError::Unauthorized);
    }
    Ok(grade_metadata(subject, year, grade_type, grade))
}

/// What a grade ledger is at one moment.
pub struct ContractState {
    /// Whether the constructor has run.
    pub initialized: bool,
    /// The display name of the ledger.
    pub name: Seq<char>,
    /// The short code of the ledger.
    pub symbol: Seq<char>,
    /// What the ledger says of itself, such as the school that keeps it.
    pub meta: Map<Seq<char>, Seq<char>>,
    /// Who may issue grades and manage teachers.
    pub teachers: Set<Identity>,
    /// All grades in the order in which they were issued.
    pub records: Seq<Record>,
}

/// A request to the ledger that is more than a question.
pub enum Operation {
    /// Make `teacher` a teacher.
    AddTeacher { teacher: Identity },
    /// Take the right to issue grades from `teacher`.
    RemoveTeacher { teacher: Identity },
    /// Issue a grade to `student`.
    Grade { student: Identity, subject: String, year: u32, grade_type: String, grade: u32 },
    /// Put a new grade on record `token_id` of `student`. The ledger accepts
    /// the request and changes nothing: records cannot be changed.
    UpdateGrade { student: Identity, grade: u32, token_id: TokenId },
}

/// What a request that was carried out led to.
#[derive(Clone, Copy, Debug, PartialEq, Eq, Structural)]
pub enum Outcome {
    /// Nothing to report.
    Done,
    /// A grade was issued under this number.
    Issued(TokenId),
}

/// The ledger after `caller` makes a request, and the answer that `caller`
/// gets.
///
/// Teachers and grades change only at the request of a teacher; a request to
/// update a grade changes nothing, whoever makes it.
pub open spec fn step(state: ContractState, caller: Identity, operation: Operation) -> (
    ContractState,
    Result<Outcome, LedgerError>,
) {
    match operation {
        Operation::UpdateGrade { student, grade, token_id } => (state, Ok(Outcome::Done)),
        Operation::AddTeacher { teacher } => if state.teachers.contains(caller) {
            (ContractState { teachers: state.teachers.insert(teacher), ..state }, Ok(Outcome::Done))
        } else {
            (state, Err(LedgerError::Unauthorized))
        },
        Operation::RemoveTeacher { teacher } => if state.teachers.contains(caller) {
            (ContractState { teachers: state.teachers.remove(teacher), ..state }, Ok(Outcome::Done))
        } else {
            (state, Err(LedgerError::Unauthorized))
        },
        Operation::Grade { student, subject, year, grade_type, grade } => if state.teachers.contains(
            caller,
        ) {
            (
                ContractState {
                    records: state.records.push(
                        Record {
                            owner: student,
                            metadata: grade_fields(
                                subject@,
                                year as nat,
                                grade_type@,
                                grade as nat,
                            ),
                        },
                    ),
                    ..state
                },
                Ok(Outcome::Issued(state.records.len() as u64)),
            )
        } else {
            (state, Err(LedgerError::Unauthorized))
        },
    }
}

/// Who is not a teacher can change neither the teachers nor the grades: each
/// such request is refused as unauthorized and the ledger stays as it is.
pub proof fn lemma_outsiders_change_nothing(
    state: ContractState,
    caller: Identity,
    operation: Operation,
)
    requires
        !state.teachers.contains(caller),
    ensures
        step(state, caller, operation).0 == state,
        !(operation is UpdateGrade) ==> step(state, caller, operation).1 == Err::<
            Outcome,
            LedgerError,
        >(LedgerError::Unauthorized),
{
}

/// No request changes a grade that was issued, takes one away, or touches the
/// name, the short code or the description of the ledger.
pub proof fn lemma_grades_are_kept(state: ContractState, caller: Identity, operation: Operation)
    ensures
        step(state, caller, operation).0.initialized == state.initialized,
        step(state, caller, operation).0.name == state.name,
        step(state, caller, operation).0.symbol == state.symbol,
        step(state, caller, operation).0.meta == state.meta,
        state.records.len() <= step(state, caller, operation).0.records.len(),
        forall|id: int|
            0 <= id < state.records.len() ==> #[trigger] step(
                state,
                caller,
                operation,
            ).0.records[id] == state.records[id],
{
}

/// A ledger of grades with its teachers.
///
/// Teachers issue grades to students and decide who else is a teacher. Every
/// teacher has the same rights: any of them may remove any other, the first
/// one included, and itself.
#[derive(Clone, Debug, PartialEq, Eq)]
pub struct NotenContract {
    name: String,
    symbol: String,
    meta: Metadata,
    registry: RoleRegistry,
    ledger: TokenLedger,
}

impl View for NotenContract {
    type V = ContractState;

    closed spec fn view(&self) -> ContractState {
        ContractState {
            initialized: self.registry.is_initialized(),
            name: self.name@,
            symbol: self.symbol@,
            meta: self.meta@,
            teachers: self.registry@,
            records: self.ledger@,
        }
    }
}

impl Default for NotenContract {
    /// A ledger on which the constructor has not run yet.
    fn default() -> (contract: NotenContract)
        ensures
            contract.wf(),
            contract@ == NotenContract::blank(),
    {
        NotenContract::new()
    }
}

impl NotenContract {
    /// What every ledger satisfies. [`NotenContract::new`] establishes it and
    /// every operation keeps it.
    pub closed spec fn wf(&self) -> bool {
        &&& self.meta.wf()
        &&& self.registry.wf()
        &&& self.ledger.wf()
    }

    /// The state before the constructor has run: no name, no teachers, no
    /// grades.
    pub open spec fn blank() -> ContractState {
        ContractState {
            initialized: false,
            name: Seq::empty(),
            symbol: Seq::empty(),
            meta: Map::empty(),
            teachers: Set::empty(),
            records: Seq::empty(),
        }
    }

    /// A ledger on which the constructor has not run yet.
    pub fn new() -> (contract: NotenContract)
        ensures
            contract.wf(),
            contract@ == NotenContract::blank(),
    {
        NotenContract {
            name: String::new(),
            symbol: String::new(),
            meta: Metadata::new(),
            registry: RoleRegistry::new(),
            ledger: TokenLedger::new(),
        }
    }

    /// Sets the ledger up: gives it its name, short code and description and
    /// makes `deployer` the first teacher. Works once; every later call is
    /// refused and changes nothing.
    pub fn constructor(
        &mut self,
        deployer: Identity,
        name: String,
        symbol: String,
        meta: Metadata,
    ) -> (result: Result<(), LedgerError>)
        requires
            old(self).wf(),
            meta.wf(),
        ensures
            final(self).wf(),
            old(self)@.initialized ==> result == Err::<(), LedgerError>(
                LedgerError::AlreadyInitialized,
            ) && *final(self) == *old(self),
            !old(self)@.initialized ==> result.is_ok() && final(self)@ == (ContractState {
                initialized: true,
                name: name@,
                symbol: symbol@,
                meta: meta@,
                teachers: Set::<Identity>::empty().insert(deployer),
                records: old(self)@.records,
            }),
    {
        match self.registry.initialize(deployer) {
            Err(e) => Err(e),
            Ok(()) => {
                self.name = name;
                self.symbol = symbol;
                self.meta = meta;
                Ok(())
            },
        }
    }

    /// Whether the constructor has run.
    pub fn is_initialized(&self) -> (done: bool)
        ensures
            done == self@.initialized,
    {
        self.registry.initialized()
    }

    /// The display name of the ledger.
    pub fn name(&self) -> (name: &String)
        ensures
            name@ == self@.name,
    {
        &self.name
    }

    /// The short code of the ledger.
    pub fn symbol(&self) -> (symbol: &String)
        ensures
            symbol@ == self@.symbol,
    {
        &self.symbol
    }

    /// What the ledger says of itself.
    pub fn meta(&self) -> (meta: &Metadata)
        requires
            self.wf(),
        ensures
            meta.wf(),
            meta@ == self@.meta,
    {
        &self.meta
    }

    /// Whether `who` is a teacher. Anyone may ask.
    pub fn is_teacher(&self, who: Identity) -> (teacher: bool)
        ensures
            teacher == self@.teachers.contains(who),
    {
        self.registry.is_member(who)
    }

    /// Makes `teacher` a teacher, on behalf of `caller`.
    ///
    /// Only a teacher may do this. If `teacher` already is one, the call
    /// succeeds and changes nothing.
    pub fn add_teacher(&mut self, caller: Identity, teacher: Identity) -> (result: Result<
        (),
        LedgerError,
    >)
        requires
            old(self).wf(),
        ensures
            final(self).wf(),
            old(self)@.teachers.contains(caller) ==> result.is_ok() && final(self)@ == (
            ContractState { teachers: old(self)@.teachers.insert(teacher), ..old(self)@ }),
            !old(self)@.teachers.contains(caller) ==> result == Err::<(), LedgerError>(
                LedgerError::Unauthorized,
            ) && *final(self) == *old(self),
    {
        self.registry.grant(caller, teacher)
    }

    /// Takes the right to issue grades from `teacher`, on behalf of `caller`.
    ///
    /// Only a teacher may do this. If `teacher` is not a teacher, the call
    /// succeeds and changes nothing. The grades that `teacher` issued stay.
    pub fn remove_teacher(&mut self, caller: Identity, teacher: Identity) -> (result: Result<
        (),
        LedgerError,
    >)
        requires
            old(self).wf(),
        ensures
            final(self).wf(),
            old(self)@.teachers.contains(caller) ==> result.is_ok() && final(self)@ == (
            ContractState { teachers: old(self)@.teachers.remove(teacher), ..old(self)@ }),
            !old(self)@.teachers.contains(caller) ==> result == Err::<(), LedgerError>(
                LedgerError::Unauthorized,
            ) && *final(self) == *old(self),
    {
        self.registry.revoke(caller, teacher)
    }

    /// Issues a grade to `student`, on behalf of `caller`, and returns the
    /// number of the new record.
    ///
    /// Only a teacher may do this. The student can be anyone.
    pub fn grade(
        &mut self,
        caller: Identity,
        student: Identity,
        subject: String,
        year: u32,
        grade_type: String,
        grade: u32,
    ) -> (result: Result<TokenId, LedgerError>)
        requires
            old(self).wf(),
        ensures
            final(self).wf(),
            old(self)@.teachers.contains(caller) ==> result.is_ok() && result.unwrap() == old(
                self,
            )@.records.len() && final(self)@ == (ContractState {
                records: old(self)@.records.push(
                    Record {
                        owner: student,
                        metadata: grade_fields(subject@, year as nat, grade_type@, grade as nat),
                    },
                ),
                ..old(self)@
            }),
            !old(self)@.teachers.contains(caller) ==> result == Err::<TokenId, LedgerError>(
                LedgerError::Unauthorized,
            ) && *final(self) == *old(self),
    {
        let is_teacher = self.registry.is_member(caller);
        match authorize_grade(is_teacher, subject, year, grade_type, grade) {
            Err(e) => Err(e),
            Ok(metadata) => Ok(self.ledger.mint(caller, student, metadata)),
        }
    }

    /// Accepts a new grade for an existing record and leaves the record as it
    /// is: records cannot be changed.
    pub fn update_grade(&self, student: Identity, grade: u32, token_id: TokenId) {
    }

    /// Carries out `operation` on behalf of `caller`.
    ///
    /// A request that is refused changes nothing.
    pub fn apply(&mut self, caller: Identity, operation: Operation) -> (result: Result<
        Outcome,
        LedgerError,
    >)
        requires
            old(self).wf(),
        ensures
            final(self).wf(),
            (final(self)@, result) == step(old(self)@, caller, operation),
            result.is_err() ==> *final(self) == *old(self),
    {
        match operation {
            Operation::AddTeacher { teacher } => match self.add_teacher(caller, teacher) {
                Ok(()) => Ok(Outcome::Done),
                Err(e) => Err(e),
            },
            Operation::RemoveTeacher { teacher } => match self.remove_teacher(caller, teacher) {
                Ok(()) => Ok(Outcome::Done),
                Err(e) => Err(e),
            },
            Operation::Grade { student, subject, year, grade_type, grade } => match self.grade(
                caller,
                student,
                subject,
                year,
                grade_type,
                grade,
            ) {
                Ok(id) => Ok(Outcome::Issued(id)),
                Err(e) => Err(e),
            },
            Operation::UpdateGrade { student, grade, token_id } => {
                self.update_grade(student, grade, token_id);
                Ok(Outcome::Done)
            },
        }
    }

    /// The fields of record `token_id`.
    pub fn token_meta(&self, token_id: TokenId) -> (result: Result<&Metadata, LedgerError>)
        requires
            self.wf(),
        ensures
            token_id < self@.records.len() ==> result.is_ok() && result.unwrap().wf()
                && result.unwrap()@ == self@.records[token_id as int].metadata,
            token_id >= self@.records.len() ==> result == Err::<&Metadata, LedgerError>(
                LedgerError::NotFound,
            ),
    {
        self.ledger.get_metadata(token_id)
    }

    /// The student to whom record `token_id` was issued.
    pub fn owner_of(&self, token_id: TokenId) -> (result: Result<Identity, LedgerError>)
        ensures
            token_id < self@.records.len() ==> result == Ok::<Identity, LedgerError>(
                self@.records[token_id as int].owner,
            ),
            token_id >= self@.records.len() ==> result == Err::<Identity, LedgerError>(
                LedgerError::NotFound,
            ),
    {
        self.ledger.get_owner(token_id)
    }

    /// The number of the record that `owner` received as its `index`-th,
    /// counted from 0, or nothing if `owner` has no more than `index` records.
    pub fn get_token_by_index(&self, owner: Identity, index: u32) -> (id: Option<TokenId>)
        requires
            self.wf(),
        ensures
            index < owned_by(self@.records, owner).len() ==> id.is_some() && id.unwrap()
                == owned_by(self@.records, owner)[index as int],
            index >= owned_by(self@.records, owner).len() ==> id.is_none(),
    {
        self.ledger.get_by_owner_index(owner, index)
    }

    /// How many records `owner` has.
    pub fn balance_of(&self, owner: Identity) -> (count: usize)
        requires
            self.wf(),
        ensures
            count == owned_by(self@.records, owner).len(),
    {
        self.ledger.balance_of(owner)
    }

    /// The number of records issued so far.
    pub fn total_supply(&self) -> (count: u64)
        ensures
            count == self@.records.len(),
    {
        self.ledger.total_supply()
    }
}

} // verus!
