//! The task records of the database and the statements that write them.
use vstd::prelude::*;
use vstd::string::*;
use crate::datetime::{millis_in_range, parse_utc, rfc3339_of_millis, rfc3339_text, utc_text_millis};
use crate::error::CliError;

verus! {

/// A task as the database stores it; the creation date is an instant in
/// milliseconds since the Unix epoch (UTC).
#[derive(Debug)]
pub struct DbTask {
    pub id: Option<String>,
    pub process_instance_task_information_creation_date: i64,
    pub objects_name: String,
    pub process_instance_task_details_key: String,
    pub process_definition_tasks_task_name: String,
    pub process_instance_task_information_target_user: String,
}

/// A database record reference.
#[derive(Debug)]
pub struct Record {
    pub id: String,
}

/// The statement that declares the typed fields of the task table.
pub const TASK_SCHEMA: &'static str = "\n                DEFINE FIELD process_instance_task_information_creation_date ON TABLE task TYPE datetime;\n                DEFINE FIELD objects_name ON TABLE task TYPE string;\n                DEFINE FIELD process_instance_task_details_key ON TABLE task TYPE string;\n                DEFINE FIELD process_definition_tasks_task_name ON TABLE task TYPE string;\n                DEFINE FIELD process_instance_task_information_target_user ON TABLE task TYPE string;\n                ";

/// The statement that creates a task: its fields are written between single
/// quotes as they are, the creation date as an RFC 3339 date literal.
pub open spec fn create_sql(
    date: Seq<char>,
    object: Seq<char>,
    key: Seq<char>,
    task_name: Seq<char>,
    user: Seq<char>,
) -> Seq<char> {
    "\n            CREATE task SET\n            process_instance_task_information_creation_date = d'"@
        + date + "',\n            objects_name = '"@ + object
        + "',\n            process_instance_task_details_key = '"@ + key
        + "',\n            process_definition_tasks_task_name = '"@ + task_name
        + "',\n            process_instance_task_information_target_user = '"@ + user
        + "'\n            "@
}

/// The statement that creates `task`, or `None` when its creation instant
/// has no RFC 3339 text (it is out of the calendar's range).
pub fn create_entry_sql(task: &DbTask) -> (r: Option<String>)
    ensures
        r is Some <==> millis_in_range(task.process_instance_task_information_creation_date),
        match rfc3339_text(task.process_instance_task_information_creation_date) {
            Some(d) => r matches Some(s) && s@ == create_sql(
                d,
                task.objects_name@,
                task.process_instance_task_details_key@,
                task.process_definition_tasks_task_name@,
                task.process_instance_task_information_target_user@,
            ),
            None => r is None,
        },
{
    let date = match rfc3339_of_millis(task.process_instance_task_information_creation_date) {
        Some(d) => d,
        None => return None,
    };
    let mut s = String::from_str(
        "\n            CREATE task SET\n            process_instance_task_information_creation_date = d'",
    );
    s.append(date.as_str());
    s.append("',\n            objects_name = '");
    s.append(task.objects_name.as_str());
    s.append("',\n            process_instance_task_details_key = '");
    s.append(task.process_instance_task_details_key.as_str());
    s.append("',\n            process_definition_tasks_task_name = '");
    s.append(task.process_definition_tasks_task_name.as_str());
    s.append("',\n            process_instance_task_information_target_user = '");
    s.append(task.process_instance_task_information_target_user.as_str());
    s.append("'\n            ");
    Some(s)
}

/// The first task of a query that returns at most one (its last row), or the
/// not-found error when the query returned none.
pub fn first_row(rows: Vec<DbTask>) -> (r: Result<DbTask, CliError>)
    ensures
        rows@.len() > 0 ==> r == Ok::<DbTask, CliError>(rows@.last()),
        rows@.len() == 0 ==> (r matches Err(CliError::EntityNotFound { entity, id }) && entity@
            == "Task"@ && id == 0),
{
    let mut rows = rows;
    match rows.pop() {
        Some(t) => Ok(t),
        None => Err(CliError::EntityNotFound { entity: "Task", id: 0 }),
    }
}

/// A task with the given fields, its creation date given as text that
/// denotes an instant.
pub open spec fn db_task_spec(
    t: DbTask,
    date_text: Seq<char>,
    object: Seq<char>,
    key: Seq<char>,
    task_name: Seq<char>,
    user: Seq<char>,
) -> bool {
    &&& t.id is None
    &&& Some(t.process_instance_task_information_creation_date) == utc_text_millis(date_text)
    &&& t.objects_name@ == object
    &&& t.process_instance_task_details_key@ == key
    &&& t.process_definition_tasks_task_name@ == task_name
    &&& t.process_instance_task_information_target_user@ == user
}

/// A task built from a row's texts holds each text in its own field: the
/// object name, the key, the task name and the target user, with no record
/// id, and the instant that the date text denotes.
pub proof fn db_task_fields(
    t: DbTask,
    date_text: Seq<char>,
    object: Seq<char>,
    key: Seq<char>,
    task_name: Seq<char>,
    user: Seq<char>,
)
    requires
        db_task_spec(t, date_text, object, key, task_name, user),
    ensures
        t.id is None,
        utc_text_millis(date_text) == Some(t.process_instance_task_information_creation_date),
        t.objects_name@ == object,
        t.process_instance_task_details_key@ == key,
        t.process_definition_tasks_task_name@ == task_name,
        t.process_instance_task_information_target_user@ == user,
{
}

/// A new task (without record id) from the texts of a table row; `None` when
/// the date text does not denote an instant.
pub fn new_db_task(
    date_text: &str,
    object: String,
    key: String,
    task_name: String,
    user: String,
) -> (r: Option<DbTask>)
    ensures
        r is Some <==> utc_text_millis(date_text@) is Some,
        r matches Some(t) ==> db_task_spec(t, date_text@, object@, key@, task_name@, user@),
        r matches Some(t) ==> {
            &&& t.id is None
            &&& Some(t.process_instance_task_information_creation_date) == utc_text_millis(
                date_text@,
            )
            &&& t.objects_name@ == object@
            &&& t.process_instance_task_details_key@ == key@
            &&& t.process_definition_tasks_task_name@ == task_name@
            &&& t.process_instance_task_information_target_user@ == user@
        },
{
    match parse_utc(date_text) {
        None => None,
        Some(m) => Some(
            DbTask {
                id: None,
                process_instance_task_information_creation_date: m,
                objects_name: object,
                process_instance_task_details_key: key,
                process_definition_tasks_task_name: task_name,
                process_instance_task_information_target_user: user,
            },
        ),
    }
}

} // verus!
