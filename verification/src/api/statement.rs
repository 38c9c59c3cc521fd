//! A database statement as the backend prepares it: SQL text and the values
//! bound to its numbered parameters.

use vstd::prelude::*;

verus! {

/// A value bound to a parameter.
pub enum Param {
    Text(String),
    Integer(u64),
    /// What an absent optional text is bound as.
    Undefined,
}

/// A bound value as the contracts see it.
pub enum ParamView {
    Text(Seq<char>),
    Integer(u64),
    Undefined,
}

impl View for Param {
    type V = ParamView;

    open spec fn view(&self) -> ParamView {
        match self {
            Param::Text(s) => ParamView::Text(s@),
            Param::Integer(n) => ParamView::Integer(*n),
            Param::Undefined => ParamView::Undefined,
        }
    }
}

/// An optional text as it is bound.
pub open spec fn optional_text(text: Option<Seq<char>>) -> ParamView {
    match text {
        Some(t) => ParamView::Text(t),
        None => ParamView::Undefined,
    }
}

/// A statement: its SQL and the values of `?1`, `?2`, ... in order.
pub struct Statement {
    pub sql: String,
    pub params: Vec<Param>,
}

/// A statement as the contracts see it.
pub type StatementView = (Seq<char>, Seq<ParamView>);

impl View for Statement {
    type V = StatementView;

    open spec fn view(&self) -> StatementView {
        (self.sql@, self.params@.map_values(|p: Param| p@))
    }
}

impl Param {
    pub fn text(s: &str) -> (p: Param)
        ensures
            p@ == ParamView::Text(s@),
    {
        Param::Text(s.to_owned())
    }

    pub fn optional_text(s: &Option<String>) -> (p: Param)
        ensures
            p@ == optional_text(match s { Some(t) => Some(t@), None => None }),
    {
        match s {
            Some(t) => Param::Text(t.as_str().to_owned()),
            None => Param::Undefined,
        }
    }
}

impl Statement {
    pub fn new(sql: &str, params: Vec<Param>) -> (s: Statement)
        ensures
            s@ == (sql@, params@.map_values(|p: Param| p@)),
    {
        Statement { sql: sql.to_owned(), params }
    }
}

} // verus!
