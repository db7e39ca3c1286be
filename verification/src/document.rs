//! Reading a snapshot out of a structured document.
//!
//! A document is a tree of the usual kind: numbers, texts, lists, and objects
//! with named members. A snapshot is an object with the members `tokens` and
//! `pools`, each a list of objects. Reading is all or nothing: the first
//! member that is missing or of the wrong kind is reported, by its path.

use vstd::prelude::*;
use crate::snapshot::{DexData, Pool, Token};

verus! {

/// A named member of an object.
#[derive(Debug, PartialEq, Eq)]
pub struct Member {
    pub name: String,
    pub value: Document,
}

/// A structured document.
#[derive(Debug, PartialEq, Eq)]
pub enum Document {
    Null,
    Bool(bool),
    /// A whole number.
    Integer(i128),
    /// A number that is not whole, or too large for `Integer`.
    Fraction,
    Text(String),
    List(Vec<Document>),
    /// The members in the order in which they stand; of two members with the
    /// same name the first counts.
    Object(Vec<Member>),
}

/// The value of the first member called `name`, if there is one.
pub open spec fn member(members: Seq<Member>, name: Seq<char>) -> Option<Document>
    decreases members.len(),
{
    if members.len() == 0 {
        None
    } else if members[0].name@ == name {
        Some(members[0].value)
    } else {
        member(members.drop_first(), name)
    }
}

/// Looks a member up by name.
pub fn find_member<'a>(members: &'a Vec<Member>, name: &str) -> (found: Option<&'a Document>)
    ensures
        found == match member(members@, name@) {
            Some(value) => Some(&value),
            None => None,
        },
{
    let wanted: String = name.to_owned();
    let mut index: usize = 0;
    assert(members@.subrange(0, members@.len() as int) == members@);
    while index < members.len()
        invariant
            index <= members@.len(),
            wanted@ == name@,
            member(members@, name@) == member(members@.subrange(index as int, members@.len() as int), name@),
        decreases members@.len() - index,
    {
        let ghost rest = members@.subrange(index as int, members@.len() as int);
        assert(rest[0] == members@[index as int]);
        assert(rest.drop_first() == members@.subrange(index + 1, members@.len() as int));
        if members[index].name == wanted {
            return Some(&members[index].value);
        }
        index += 1;
    }
    None
}

/// The two lists of a snapshot.
#[derive(Debug, Clone, Copy, PartialEq, Eq)]
pub enum Section {
    Tokens,
    Pools,
}

/// The members of a token and of a pool.
#[derive(Debug, Clone, Copy, PartialEq, Eq)]
pub enum Field {
    Symbol,
    Decimals,
    Address,
    DexName,
    Chain,
    Token0,
    Token1,
    Reserve0,
    Reserve1,
    Fee,
}

/// A place in a snapshot document.
#[derive(Debug, Clone, Copy, PartialEq, Eq)]
pub enum FieldPath {
    /// The document itself.
    Root,
    /// One of the two lists, as in `pools`.
    Section(Section),
    /// An entry of a list, as in `pools[2]`.
    Entry(Section, usize),
    /// A member of an entry, as in `pools[2].reserve0`.
    Field(Section, usize, Field),
}

/// What is wrong at a place.
#[derive(Debug, Clone, Copy, PartialEq, Eq)]
pub enum Violation {
    /// The member is not there.
    Missing,
    /// The value is of another kind than the place takes.
    WrongType,
    /// The number is below zero.
    Negative,
    /// The number is too large for the place.
    OutOfRange,
}

/// Why a document is no snapshot: the first place that is wrong, and how.
#[derive(Debug, Clone, Copy, PartialEq, Eq)]
pub struct MalformedSnapshot {
    pub path: FieldPath,
    pub violation: Violation,
}

/// The name of a list in the document.
pub open spec fn section_name(section: Section) -> Seq<char> {
    match section {
        Section::Tokens => "tokens"@,
        Section::Pools => "pools"@,
    }
}

/// The name of a member in the document.
pub open spec fn field_name(field: Field) -> Seq<char> {
    match field {
        Field::Symbol => "symbol"@,
        Field::Decimals => "decimals"@,
        Field::Address => "address"@,
        Field::DexName => "dexName"@,
        Field::Chain => "chain"@,
        Field::Token0 => "token0"@,
        Field::Token1 => "token1"@,
        Field::Reserve0 => "reserve0"@,
        Field::Reserve1 => "reserve1"@,
        Field::Fee => "fee"@,
    }
}

/// The largest number that a member takes; a member that takes a text has
/// none.
pub open spec fn field_limit(field: Field) -> Option<int> {
    match field {
        Field::Decimals => Some(u32::MAX as int),
        Field::Reserve0 | Field::Reserve1 | Field::Fee => Some(u64::MAX as int),
        _ => None,
    }
}

/// What is wrong with `value` as the value of `field`, if anything: a text
/// member takes a text, a number member a whole number from zero up to its
/// limit.
pub open spec fn value_violation(value: Document, field: Field) -> Option<Violation> {
    match field_limit(field) {
        None => if value is Text {
            None
        } else {
            Some(Violation::WrongType)
        },
        Some(limit) => match value {
            Document::Integer(number) => if number < 0 {
                Some(Violation::Negative)
            } else if number > limit {
                Some(Violation::OutOfRange)
            } else {
                None
            },
            _ => Some(Violation::WrongType),
        },
    }
}

/// What is wrong with the member `field` among `members`, if anything.
pub open spec fn field_violation(members: Seq<Member>, field: Field) -> Option<Violation> {
    match member(members, field_name(field)) {
        None => Some(Violation::Missing),
        Some(value) => value_violation(value, field),
    }
}

/// The members of an entry of a list, in the order in which they are read.
pub open spec fn fields_of(section: Section) -> Seq<Field> {
    match section {
        Section::Tokens => seq![Field::Symbol, Field::Decimals, Field::Address],
        Section::Pools => seq![
            Field::DexName,
            Field::Chain,
            Field::Token0,
            Field::Token1,
            Field::Reserve0,
            Field::Reserve1,
            Field::Fee,
        ],
    }
}

/// The first of `fields`, from position `from` on, that is wrong among
/// `members`, and how.
pub open spec fn first_field_violation(
    members: Seq<Member>,
    fields: Seq<Field>,
    from: int,
) -> Option<(Field, Violation)>
    decreases fields.len() - from,
{
    if from < 0 || from >= fields.len() {
        None
    } else {
        match field_violation(members, fields[from]) {
            Some(violation) => Some((fields[from], violation)),
            None => first_field_violation(members, fields, from + 1),
        }
    }
}

/// What is wrong with the entry at `index` of a list, if anything: it is an
/// object, and its members are read in their order.
pub open spec fn entry_violation(
    entry: Document,
    section: Section,
    index: usize,
) -> Option<MalformedSnapshot> {
    match entry {
        Document::Object(members) => match first_field_violation(
            members@,
            fields_of(section),
            0,
        ) {
            Some((field, violation)) => Some(
                MalformedSnapshot { path: FieldPath::Field(section, index, field), violation },
            ),
            None => None,
        },
        _ => Some(
            MalformedSnapshot {
                path: FieldPath::Entry(section, index),
                violation: Violation::WrongType,
            },
        ),
    }
}

/// What is wrong with the first wrong entry of a list from position `from`
/// on, if any is.
pub open spec fn first_entry_violation(
    entries: Seq<Document>,
    section: Section,
    from: int,
) -> Option<MalformedSnapshot>
    decreases entries.len() - from,
{
    if from < 0 || from >= entries.len() {
        None
    } else {
        match entry_violation(entries[from], section, from as usize) {
            Some(error) => Some(error),
            None => first_entry_violation(entries, section, from + 1),
        }
    }
}

/// What is wrong with one of the two lists of a document, if anything.
pub open spec fn section_violation(members: Seq<Member>, section: Section) -> Option<
    MalformedSnapshot,
> {
    match member(members, section_name(section)) {
        None => Some(
            MalformedSnapshot { path: FieldPath::Section(section), violation: Violation::Missing },
        ),
        Some(Document::List(entries)) => first_entry_violation(entries@, section, 0),
        Some(_) => Some(
            MalformedSnapshot { path: FieldPath::Section(section), violation: Violation::WrongType },
        ),
    }
}

/// Why `document` is no snapshot, or `None` where it is one. The document
/// is read from its start: the tokens before the pools, each list entry by
/// entry, each entry member by member, and the first fault is the one named.
pub open spec fn violation_of(document: Document) -> Option<MalformedSnapshot> {
    match document {
        Document::Object(members) => match section_violation(members@, Section::Tokens) {
            Some(error) => Some(error),
            None => section_violation(members@, Section::Pools),
        },
        _ => Some(MalformedSnapshot { path: FieldPath::Root, violation: Violation::WrongType }),
    }
}

/// The text of the member `field` of an entry.
pub open spec fn text_at(entry: Document, field: Field) -> Seq<char> {
    match entry {
        Document::Object(members) => match member(members@, field_name(field)) {
            Some(Document::Text(text)) => text@,
            _ => Seq::empty(),
        },
        _ => Seq::empty(),
    }
}

/// The number of the member `field` of an entry.
pub open spec fn number_at(entry: Document, field: Field) -> int {
    match entry {
        Document::Object(members) => match member(members@, field_name(field)) {
            Some(Document::Integer(number)) => number as int,
            _ => 0,
        },
        _ => 0,
    }
}

/// The entries of one of the two lists of a document.
pub open spec fn entries_of(document: Document, section: Section) -> Seq<Document> {
    match document {
        Document::Object(members) => match member(members@, section_name(section)) {
            Some(Document::List(entries)) => entries@,
            _ => Seq::empty(),
        },
        _ => Seq::empty(),
    }
}

/// Whether `token` is what `entry` says.
pub open spec fn is_token_of(token: Token, entry: Document) -> bool {
    &&& token.symbol@ == text_at(entry, Field::Symbol)
    &&& token.decimals == number_at(entry, Field::Decimals)
    &&& token.address@ == text_at(entry, Field::Address)
}

/// Whether `pool` is what `entry` says.
pub open spec fn is_pool_of(pool: Pool, entry: Document) -> bool {
    &&& pool.dexName@ == text_at(entry, Field::DexName)
    &&& pool.chain@ == text_at(entry, Field::Chain)
    &&& pool.token0@ == text_at(entry, Field::Token0)
    &&& pool.token1@ == text_at(entry, Field::Token1)
    &&& pool.reserve0 == number_at(entry, Field::Reserve0)
    &&& pool.reserve1 == number_at(entry, Field::Reserve1)
    &&& pool.fee == number_at(entry, Field::Fee)
}

/// Whether `data` is the snapshot that `document` holds: the same tokens and
/// pools, as many and in the same order.
pub open spec fn is_snapshot_of(data: DexData, document: Document) -> bool {
    &&& data.tokens@.len() == entries_of(document, Section::Tokens).len()
    &&& forall|i: int|
        0 <= i < data.tokens@.len() ==> is_token_of(
            #[trigger] data.tokens@[i],
            entries_of(document, Section::Tokens)[i],
        )
    &&& data.pools@.len() == entries_of(document, Section::Pools).len()
    &&& forall|i: int|
        0 <= i < data.pools@.len() ==> is_pool_of(
            #[trigger] data.pools@[i],
            entries_of(document, Section::Pools)[i],
        )
}

/// The name of a list, as the document spells it.
fn section_key(section: Section) -> (name: &'static str)
    ensures
        name@ == section_name(section),
{
    match section {
        Section::Tokens => "tokens",
        Section::Pools => "pools",
    }
}

/// The name of a member, as the document spells it.
fn field_key(field: Field) -> (name: &'static str)
    ensures
        name@ == field_name(field),
{
    match field {
        Field::Symbol => "symbol",
        Field::Decimals => "decimals",
        Field::Address => "address",
        Field::DexName => "dexName",
        Field::Chain => "chain",
        Field::Token0 => "token0",
        Field::Token1 => "token1",
        Field::Reserve0 => "reserve0",
        Field::Reserve1 => "reserve1",
        Field::Fee => "fee",
    }
}

/// What a fault of the member `field` of an entry is reported as.
pub open spec fn field_fault(
    section: Section,
    index: usize,
    field: Field,
    violation: Violation,
) -> MalformedSnapshot {
    MalformedSnapshot { path: FieldPath::Field(section, index, field), violation }
}

/// Reads a member that takes a text.
fn read_text(members: &Vec<Member>, section: Section, index: usize, field: Field) -> (result: Result<
    String,
    MalformedSnapshot,
>)
    requires
        field_limit(field) is None,
    ensures
        match result {
            Ok(text) => field_violation(members@, field) is None && member(
                members@,
                field_name(field),
            ) == Some(Document::Text(text)),
            Err(error) => field_violation(members@, field) is Some && error == field_fault(
                section,
                index,
                field,
                field_violation(members@, field)->0,
            ),
        },
{
    let violation = match find_member(members, field_key(field)) {
        None => Violation::Missing,
        Some(Document::Text(text)) => {
            return Ok(text.clone());
        },
        Some(_) => Violation::WrongType,
    };
    Err(MalformedSnapshot { path: FieldPath::Field(section, index, field), violation })
}

/// Reads a member that takes a number from zero up to `limit`.
fn read_number(
    members: &Vec<Member>,
    section: Section,
    index: usize,
    field: Field,
    limit: u64,
) -> (result: Result<u64, MalformedSnapshot>)
    requires
        field_limit(field) == Some(limit as int),
    ensures
        match result {
            Ok(number) => field_violation(members@, field) is None && member(
                members@,
                field_name(field),
            ) == Some(Document::Integer(number as i128)),
            Err(error) => field_violation(members@, field) is Some && error == field_fault(
                section,
                index,
                field,
                field_violation(members@, field)->0,
            ),
        },
{
    let violation = match find_member(members, field_key(field)) {
        None => Violation::Missing,
        Some(Document::Integer(number)) => {
            if *number < 0 {
                Violation::Negative
            } else if *number > limit as i128 {
                Violation::OutOfRange
            } else {
                return Ok(*number as u64);
            }
        },
        Some(_) => Violation::WrongType,
    };
    Err(MalformedSnapshot { path: FieldPath::Field(section, index, field), violation })
}

/// Reads one entry of `tokens`.
fn read_token(entry: &Document, index: usize) -> (result: Result<Token, MalformedSnapshot>)
    ensures
        match result {
            Ok(token) => entry_violation(*entry, Section::Tokens, index) is None && is_token_of(
                token,
                *entry,
            ),
            Err(error) => entry_violation(*entry, Section::Tokens, index) == Some(error),
        },
{
    let section = Section::Tokens;
    proof {
        reveal_with_fuel(first_field_violation, 4);
    }
    match entry {
        Document::Object(members) => {
            let symbol = read_text(members, section, index, Field::Symbol)?;
            let decimals: u64 = read_number(members, section, index, Field::Decimals, u32::MAX as u64)?;
            let address = read_text(members, section, index, Field::Address)?;
            Ok(Token { symbol, decimals: decimals as u32, address })
        },
        _ => Err(
            MalformedSnapshot {
                path: FieldPath::Entry(section, index),
                violation: Violation::WrongType,
            },
        ),
    }
}

/// Reads one entry of `pools`.
fn read_pool(entry: &Document, index: usize) -> (result: Result<Pool, MalformedSnapshot>)
    ensures
        match result {
            Ok(pool) => entry_violation(*entry, Section::Pools, index) is None && is_pool_of(
                pool,
                *entry,
            ),
            Err(error) => entry_violation(*entry, Section::Pools, index) == Some(error),
        },
{
    let section = Section::Pools;
    proof {
        reveal_with_fuel(first_field_violation, 8);
    }
    match entry {
        Document::Object(members) => {
            let name = read_text(members, section, index, Field::DexName)?;
            let chain = read_text(members, section, index, Field::Chain)?;
            let token0 = read_text(members, section, index, Field::Token0)?;
            let token1 = read_text(members, section, index, Field::Token1)?;
            let reserve0: u64 = read_number(members, section, index, Field::Reserve0, u64::MAX)?;
            let reserve1: u64 = read_number(members, section, index, Field::Reserve1, u64::MAX)?;
            let fee: u64 = read_number(members, section, index, Field::Fee, u64::MAX)?;
            Ok(Pool { dexName: name, chain, token0, token1, reserve0, reserve1, fee })
        },
        _ => Err(
            MalformedSnapshot {
                path: FieldPath::Entry(section, index),
                violation: Violation::WrongType,
            },
        ),
    }
}

/// Looks up one of the two lists of a document.
fn find_section<'a>(members: &'a Vec<Member>, section: Section) -> (result: Result<
    &'a Vec<Document>,
    MalformedSnapshot,
>)
    ensures
        match result {
            Ok(entries) => member(members@, section_name(section)) == Some(
                Document::List(*entries),
            ),
            Err(error) => !(member(members@, section_name(section)) is Some && member(
                members@,
                section_name(section),
            )->0 is List) && section_violation(members@, section) == Some(error),
        },
{
    match find_member(members, section_key(section)) {
        None => Err(
            MalformedSnapshot { path: FieldPath::Section(section), violation: Violation::Missing },
        ),
        Some(Document::List(entries)) => Ok(entries),
        Some(_) => Err(
            MalformedSnapshot { path: FieldPath::Section(section), violation: Violation::WrongType },
        ),
    }
}

/// Reads the list `tokens`.
fn read_tokens(members: &Vec<Member>) -> (result: Result<Vec<Token>, MalformedSnapshot>)
    ensures
        match result {
            Ok(tokens) => {
                &&& section_violation(members@, Section::Tokens) is None
                &&& member(members@, section_name(Section::Tokens)) matches Some(
                    Document::List(entries),
                )
                &&& tokens@.len() == entries@.len()
                &&& forall|i: int|
                    0 <= i < tokens@.len() ==> is_token_of(#[trigger] tokens@[i], entries@[i])
            },
            Err(error) => section_violation(members@, Section::Tokens) == Some(error),
        },
{
    let entries = find_section(members, Section::Tokens)?;
    let mut tokens: Vec<Token> = Vec::new();
    let mut index: usize = 0;
    while index < entries.len()
        invariant
            index <= entries@.len(),
            tokens@.len() == index,
            member(members@, section_name(Section::Tokens)) == Some(Document::List(*entries)),
            first_entry_violation(entries@, Section::Tokens, 0) == first_entry_violation(
                entries@,
                Section::Tokens,
                index as int,
            ),
            forall|i: int| 0 <= i < index ==> is_token_of(#[trigger] tokens@[i], entries@[i]),
        decreases entries@.len() - index,
    {
        let token = read_token(&entries[index], index)?;
        tokens.push(token);
        index += 1;
    }
    Ok(tokens)
}

/// Reads the list `pools`.
fn read_pools(members: &Vec<Member>) -> (result: Result<Vec<Pool>, MalformedSnapshot>)
    ensures
        match result {
            Ok(pools) => {
                &&& section_violation(members@, Section::Pools) is None
                &&& member(members@, section_name(Section::Pools)) matches Some(
                    Document::List(entries),
                )
                &&& pools@.len() == entries@.len()
                &&& forall|i: int|
                    0 <= i < pools@.len() ==> is_pool_of(#[trigger] pools@[i], entries@[i])
            },
            Err(error) => section_violation(members@, Section::Pools) == Some(error),
        },
{
    let entries = find_section(members, Section::Pools)?;
    let mut pools: Vec<Pool> = Vec::new();
    let mut index: usize = 0;
    while index < entries.len()
        invariant
            index <= entries@.len(),
            pools@.len() == index,
            member(members@, section_name(Section::Pools)) == Some(Document::List(*entries)),
            first_entry_violation(entries@, Section::Pools, 0) == first_entry_violation(
                entries@,
                Section::Pools,
                index as int,
            ),
            forall|i: int| 0 <= i < index ==> is_pool_of(#[trigger] pools@[i], entries@[i]),
        decreases entries@.len() - index,
    {
        let pool = read_pool(&entries[index], index)?;
        pools.push(pool);
        index += 1;
    }
    Ok(pools)
}

/// Reads a snapshot out of a document.
///
/// Gives the snapshot where the document holds one, and else the first
/// fault, by its place in the document. Members that a snapshot does not
/// have are passed over.
pub fn parse_snapshot(document: &Document) -> (result: Result<DexData, MalformedSnapshot>)
    ensures
        match result {
            Ok(data) => violation_of(*document) is None && is_snapshot_of(data, *document),
            Err(error) => violation_of(*document) == Some(error),
        },
{
    match document {
        Document::Object(members) => {
            let tokens = read_tokens(members)?;
            let pools = read_pools(members)?;
            Ok(DexData { tokens, pools })
        },
        _ => Err(MalformedSnapshot { path: FieldPath::Root, violation: Violation::WrongType }),
    }
}

} // verus!
