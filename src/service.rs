use vstd::prelude::*;
use vstd::string::StringExecFns;
use crate::person::{Person, is_doc_of, is_key_of};
use crate::value::{DocValue, WireValue, is_wire_of};

verus! {

/// Writes a whole item into a table, replacing any item with its key.
#[derive(Debug, PartialEq, Eq)]
pub struct PutRequest {
    pub table_name: String,
    pub item: Vec<(String, WireValue)>,
}

/// Reads the item of a table that the primary-key fields name.
#[derive(Debug, PartialEq, Eq)]
pub struct GetRequest {
    pub table_name: String,
    pub key: Vec<(String, WireValue)>,
}

/// What the caller receives when the item was written.
#[derive(Debug, PartialEq, Eq)]
pub struct Envelope {
    pub status_code: u16,
    pub message: String,
}

/// The status code of a successful operation.
pub const STATUS_OK: u16 = 200;

/// The greeting for a person of the given first name.
pub open spec fn greeting_text(first_name: Seq<char>) -> Seq<char> {
    "Hello, "@ + first_name + "!"@
}

/// The two requests that storing `p` in `table_name` issues together: the
/// write of its whole item and the read of the item under its key.
pub fn requests_for(table_name: &String, p: &Person) -> (r: (PutRequest, GetRequest))
    ensures
        r.0.table_name@ == table_name@,
        exists|d: DocValue| is_doc_of(d, *p) && is_wire_of(WireValue::MapOf(r.0.item), d),
        r.1.table_name@ == table_name@,
        is_key_of(r.1.key@, *p),
{
    let put = PutRequest { table_name: table_name.clone(), item: p.to_item() };
    let get = GetRequest { table_name: table_name.clone(), key: p.primary_key() };
    (put, get)
}

/// The success envelope that greets `p`.
pub fn greeting(p: &Person) -> (r: Envelope)
    ensures
        r.status_code == STATUS_OK,
        r.message@ == greeting_text(p.first_name@),
{
    let mut message = String::from_str("Hello, ");
    message.append(p.first_name.as_str());
    message.append("!");
    Envelope { status_code: STATUS_OK, message }
}

/// The outcome once both requests have settled. A failed write fails the
/// whole operation with its error, whatever the read gave; a written item
/// yields the greeting, whether or not the read succeeded.
pub fn settle<A, E, B, F>(p: &Person, put: Result<A, E>, get: &Result<B, F>) -> (r: Result<
    Envelope,
    E,
>)
    ensures
        r is Ok <==> put is Ok,
        put matches Err(e) ==> r == Err::<Envelope, E>(e),
        r matches Ok(env) ==> env.status_code == STATUS_OK && env.message@ == greeting_text(
            p.first_name@,
        ),
{
    match put {
        Ok(_) => Ok(greeting(p)),
        Err(e) => Err(e),
    }
}

} // verus!
