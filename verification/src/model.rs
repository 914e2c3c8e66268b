//! The task records that the REST backend returns, one page at a time.
use vstd::prelude::*;

verus! {

/// A hypermedia link of a result page (`rel`, `href`).
#[derive(Debug)]
pub struct Link {
    pub rel: String,
    pub href: String,
}

/// What a task field holds, as far as the task table reads it: a JSON number
/// (by its decimal text), a JSON string, or any other JSON value.
#[derive(Debug)]
pub enum FieldValue {
    Number(String),
    Text(String),
    Other,
}

/// One named field of a task.
#[derive(Debug)]
pub struct Field {
    pub name: String,
    pub value: FieldValue,
}

/// A task of the backend: its fields, in the order the backend lists them.
#[derive(Debug)]
pub struct Task {
    pub fields: Vec<Field>,
}

/// One page of results.
#[derive(Debug)]
pub struct Root {
    pub tasks: Vec<Task>,
    pub has_more: bool,
    pub links: Vec<Link>,
    pub count: u64,
    pub total_result: u64,
}

/// Spec view of a field value.
pub enum FieldValueView {
    Number(Seq<char>),
    Text(Seq<char>),
    Other,
}

impl View for FieldValue {
    type V = FieldValueView;

    open spec fn view(&self) -> FieldValueView {
        match self {
            FieldValue::Number(s) => FieldValueView::Number(s@),
            FieldValue::Text(s) => FieldValueView::Text(s@),
            FieldValue::Other => FieldValueView::Other,
        }
    }
}

impl View for Field {
    type V = (Seq<char>, FieldValueView);

    open spec fn view(&self) -> (Seq<char>, FieldValueView) {
        (self.name@, self.value@)
    }
}

impl View for Task {
    type V = Seq<(Seq<char>, FieldValueView)>;

    open spec fn view(&self) -> Seq<(Seq<char>, FieldValueView)> {
        self.fields@.map_values(|f: Field| f@)
    }
}

impl View for Link {
    type V = (Seq<char>, Seq<char>);

    open spec fn view(&self) -> (Seq<char>, Seq<char>) {
        (self.rel@, self.href@)
    }
}

/// The view of a list of tasks.
pub open spec fn tasks_view(tasks: Seq<Task>) -> Seq<Seq<(Seq<char>, FieldValueView)>> {
    tasks.map_values(|t: Task| t@)
}

} // verus!
