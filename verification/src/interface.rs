use vstd::prelude::*;
use vstd::string::StringExecFns;

verus! {

/// The kind of value that an entry point takes or gives back.
#[derive(Clone, Copy, Debug, PartialEq, Eq, Structural)]
pub enum ValueType {
    /// Nothing.
    Unit,
    /// A text.
    Text,
    /// An unsigned 32-bit number.
    Number,
    /// The number of a record.
    TokenId,
    /// An identity.
    Identity,
    /// A mapping from text keys to text values.
    Metadata,
}

/// Who may call an entry point.
#[derive(Clone, Debug, PartialEq, Eq)]
pub enum Access {
    /// Anyone.
    Public,
    /// The members of the named group.
    Group(String),
}

/// What contracts say of an [`Access`].
pub enum AccessView {
    Public,
    Group(Seq<char>),
}

impl View for Access {
    type V = AccessView;

    open spec fn view(&self) -> AccessView {
        match self {
            Access::Public => AccessView::Public,
            Access::Group(name) => AccessView::Group(name@),
        }
    }
}

/// A named argument of an entry point.
#[derive(Clone, Debug, PartialEq, Eq)]
pub struct Parameter {
    pub name: String,
    pub value_type: ValueType,
}

impl View for Parameter {
    type V = (Seq<char>, ValueType);

    open spec fn view(&self) -> (Seq<char>, ValueType) {
        (self.name@, self.value_type)
    }
}

/// What the ledger declares of one entry point: its name, its arguments in
/// order, what it gives back and who may call it.
#[derive(Clone, Debug, PartialEq, Eq)]
pub struct EntryPoint {
    pub name: String,
    pub parameters: Vec<Parameter>,
    pub return_type: ValueType,
    pub access: Access,
}

/// What contracts say of an [`EntryPoint`].
pub struct EntryPointView {
    pub name: Seq<char>,
    pub parameters: Seq<(Seq<char>, ValueType)>,
    pub return_type: ValueType,
    pub access: AccessView,
}

impl View for EntryPoint {
    type V = EntryPointView;

    open spec fn view(&self) -> EntryPointView {
        EntryPointView {
            name: self.name@,
            parameters: self.parameters@.map_values(|p: Parameter| p@),
            return_type: self.return_type,
            access: self.access@,
        }
    }
}

/// The entry points of the ledger.
///
/// Only the constructor is restricted: it is open to the group `constructor`,
/// which exists while the ledger is being set up. `update_grade` is declared
/// like the others although it changes nothing.
pub open spec fn entry_point_table() -> Seq<EntryPointView> {
    seq![
        EntryPointView {
            name: "constructor"@,
            parameters: seq![
                ("name"@, ValueType::Text),
                ("symbol"@, ValueType::Text),
                ("meta"@, ValueType::Metadata),
            ],
            return_type: ValueType::Unit,
            access: AccessView::Group("constructor"@),
        },
        EntryPointView {
            name: "name"@,
            parameters: seq![],
            return_type: ValueType::Text,
            access: AccessView::Public,
        },
        EntryPointView {
            name: "symbol"@,
            parameters: seq![],
            return_type: ValueType::Text,
            access: AccessView::Public,
        },
        EntryPointView {
            name: "meta"@,
            parameters: seq![],
            return_type: ValueType::Metadata,
            access: AccessView::Public,
        },
        EntryPointView {
            name: "token_meta"@,
            parameters: seq![("token_id"@, ValueType::TokenId)],
            return_type: ValueType::Metadata,
            access: AccessView::Public,
        },
        EntryPointView {
            name: "grade"@,
            parameters: seq![
                ("student"@, ValueType::Identity),
                ("subject"@, ValueType::Text),
                ("year"@, ValueType::Number),
                ("type"@, ValueType::Text),
                ("grade"@, ValueType::Number),
            ],
            return_type: ValueType::Unit,
            access: AccessView::Public,
        },
        EntryPointView {
            name: "update_grade"@,
            parameters: seq![
                ("student"@, ValueType::Identity),
                ("grade"@, ValueType::Number),
                ("token_id"@, ValueType::TokenId),
            ],
            return_type: ValueType::Unit,
            access: AccessView::Public,
        },
        EntryPointView {
            name: "add_teacher"@,
            parameters: seq![("teacher"@, ValueType::Identity)],
            return_type: ValueType::Unit,
            access: AccessView::Public,
        },
        EntryPointView {
            name: "remove_teacher"@,
            parameters: seq![("teacher"@, ValueType::Identity)],
            return_type: ValueType::Unit,
            access: AccessView::Public,
        },
    ]
}

/// No two entry points have the same name.
pub proof fn lemma_entry_point_names_differ()
    ensures
        forall|i: int, j: int|
            0 <= i < j < entry_point_table().len() ==> (#[trigger] entry_point_table()[i]).name
                != (#[trigger] entry_point_table()[j]).name,
{
    reveal_strlit("constructor");
    reveal_strlit("name");
    reveal_strlit("symbol");
    reveal_strlit("meta");
    reveal_strlit("token_meta");
    reveal_strlit("grade");
    reveal_strlit("update_grade");
    reveal_strlit("add_teacher");
    reveal_strlit("remove_teacher");
    let table = entry_point_table();
    assert(table[0].name[0] == 'c');
    assert(table[1].name[0] == 'n');
    assert(table[2].name[0] == 's');
    assert(table[3].name[0] == 'm');
    assert(table[4].name[0] == 't');
    assert(table[5].name[0] == 'g');
    assert(table[6].name[0] == 'u');
    assert(table[7].name[0] == 'a');
    assert(table[8].name[0] == 'r');
}

fn parameter(name: &str, value_type: ValueType) -> (parameter: Parameter)
    ensures
        parameter@ == (name@, value_type),
{
    Parameter { name: String::from_str(name), value_type }
}

fn entry_point(name: &str, parameters: Vec<Parameter>, return_type: ValueType, access: Access) -> (entry:
    EntryPoint)
    ensures
        entry@ == (EntryPointView {
            name: name@,
            parameters: parameters@.map_values(|p: Parameter| p@),
            return_type,
            access: access@,
        }),
{
    EntryPoint { name: String::from_str(name), parameters, return_type, access }
}

/// The entry points that the ledger declares, in the order of the table.
pub fn get_entry_points() -> (entry_points: Vec<EntryPoint>)
    ensures
        entry_points@.map_values(|e: EntryPoint| e@) == entry_point_table(),
{
    let mut entry_points: Vec<EntryPoint> = Vec::new();

    let mut parameters: Vec<Parameter> = Vec::new();
    parameters.push(parameter("name", ValueType::Text));
    parameters.push(parameter("symbol", ValueType::Text));
    parameters.push(parameter("meta", ValueType::Metadata));
    assert(parameters@.map_values(|p: Parameter| p@) =~= entry_point_table()[0].parameters);
    entry_points.push(
        entry_point(
            "constructor",
            parameters,
            ValueType::Unit,
            Access::Group(String::from_str("constructor")),
        ),
    );

    let parameters: Vec<Parameter> = Vec::new();
    assert(parameters@.map_values(|p: Parameter| p@) =~= entry_point_table()[1].parameters);
    entry_points.push(entry_point("name", parameters, ValueType::Text, Access::Public));

    let parameters: Vec<Parameter> = Vec::new();
    assert(parameters@.map_values(|p: Parameter| p@) =~= entry_point_table()[2].parameters);
    entry_points.push(entry_point("symbol", parameters, ValueType::Text, Access::Public));

    let parameters: Vec<Parameter> = Vec::new();
    assert(parameters@.map_values(|p: Parameter| p@) =~= entry_point_table()[3].parameters);
    entry_points.push(entry_point("meta", parameters, ValueType::Metadata, Access::Public));

    let mut parameters: Vec<Parameter> = Vec::new();
    parameters.push(parameter("token_id", ValueType::TokenId));
    assert(parameters@.map_values(|p: Parameter| p@) =~= entry_point_table()[4].parameters);
    entry_points.push(entry_point("token_meta", parameters, ValueType::Metadata, Access::Public));

    let mut parameters: Vec<Parameter> = Vec::new();
    parameters.push(parameter("student", ValueType::Identity));
    parameters.push(parameter("subject", ValueType::Text));
    parameters.push(parameter("year", ValueType::Number));
    parameters.push(parameter("type", ValueType::Text));
    parameters.push(parameter("grade", ValueType::Number));
    assert(parameters@.map_values(|p: Parameter| p@) =~= entry_point_table()[5].parameters);
    entry_points.push(entry_point("grade", parameters, ValueType::Unit, Access::Public));

    let mut parameters: Vec<Parameter> = Vec::new();
    parameters.push(parameter("student", ValueType::Identity));
    parameters.push(parameter("grade", ValueType::Number));
    parameters.push(parameter("token_id", ValueType::TokenId));
    assert(parameters@.map_values(|p: Parameter| p@) =~= entry_point_table()[6].parameters);
    entry_points.push(entry_point("update_grade", parameters, ValueType::Unit, Access::Public));

    let mut parameters: Vec<Parameter> = Vec::new();
    parameters.push(parameter("teacher", ValueType::Identity));
    assert(parameters@.map_values(|p: Parameter| p@) =~= entry_point_table()[7].parameters);
    entry_points.push(entry_point("add_teacher", parameters, ValueType::Unit, Access::Public));

    let mut parameters: Vec<Parameter> = Vec::new();
    parameters.push(parameter("teacher", ValueType::Identity));
    assert(parameters@.map_values(|p: Parameter| p@) =~= entry_point_table()[8].parameters);
    entry_points.push(entry_point("remove_teacher", parameters, ValueType::Unit, Access::Public));

    assert(entry_points@.map_values(|e: EntryPoint| e@) =~= entry_point_table());
    entry_points
}

/// The name under which the address of the package is kept while the ledger
/// is being set up.
pub fn package_hash_key() -> (key: String)
    ensures
        key@ == "contract_package_hash"@,
{
    String::from_str("contract_package_hash")
}

/// The name under which the address of the ledger called `contract_name` is
/// kept after it was set up.
pub fn contract_hash_key(contract_name: &str) -> (key: String)
    ensures
        key@ == contract_name@ + "_contract_hash"@,
{
    String::from_str(contract_name).concat("_contract_hash")
}

/// The name under which a reference to the address of the ledger called
/// `contract_name` is kept after it was set up.
pub fn wrapped_contract_hash_key(contract_name: &str) -> (key: String)
    ensures
        key@ == contract_name@ + "_contract_hash_wrapped"@,
{
    String::from_str(contract_name).concat("_contract_hash_wrapped")
}

/// The name under which a reference to the address of the package of the
/// ledger called `contract_name` is kept after it was set up.
pub fn wrapped_package_hash_key(contract_name: &str) -> (key: String)
    ensures
        key@ == contract_name@ + "_package_hash_wrapped"@,
{
    String::from_str(contract_name).concat("_package_hash_wrapped")
}

} // verus!
