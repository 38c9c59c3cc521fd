//! Reading and writing the messages of a conversation.

use vstd::prelude::*;
use crate::api::statement::{Param, ParamView, Statement, StatementView};
use crate::models::{BranchID, IDObject, InvalidBranchId, LoadMessagesQuery, Message, utf8_len};
use crate::models::openai::{Role, role_id, role_of_id};
use crate::text::{chars_of, string_of};
use vstd::utf8::{decode_utf8, encode_utf8, encode_utf8_decode_utf8, encode_utf8_valid_utf8, valid_utf8};

verus! {

/// A stored message as the database returns it.
pub struct MessageRecord {
    pub id: usize,
    pub role_id: u8,
    pub content: String,
}

// ----------------------------------------------------------------------------
// Loading the messages of a branch
// ----------------------------------------------------------------------------

pub open spec fn first_branches_sql() -> Seq<char> {
    "SELECT branches FROM messages\n                        WHERE chat_id = ?1\n                        ORDER BY id ASC\n                        LIMIT 1\n                    "@
}

pub open spec fn branch_messages_sql() -> Seq<char> {
    "SELECT id, role_id, content FROM messages\n                    WHERE chat_id = ?1 AND instr(branches, ':' || ?2)\n                    ORDER BY id ASC\n                "@
}

pub open spec fn first_branches_view(chat_id: Seq<char>) -> StatementView {
    (first_branches_sql(), seq![ParamView::Text(chat_id)])
}

pub open spec fn branch_messages_view(chat_id: Seq<char>, branch: Seq<char>) -> StatementView {
    (branch_messages_sql(), seq![ParamView::Text(chat_id), ParamView::Text(branch)])
}

/// `sql` ends with `clause`, followed by nothing but spaces and line breaks.
pub open spec fn ends_with_clause(sql: Seq<char>, clause: Seq<char>) -> bool {
    exists|i: int|
        0 <= i && i + clause.len() <= sql.len() && #[trigger] sql.subrange(i, i + clause.len()) == clause
            && forall|j: int| i + clause.len() <= j < sql.len() ==> sql[j] == ' ' || sql[j] == '\n'
}

/// The messages of a branch are read oldest first: the statement's last
/// clause orders its rows by increasing id.
pub proof fn law_branch_messages_oldest_first()
    ensures
        ends_with_clause(branch_messages_sql(), "ORDER BY id ASC"@),
{
    reveal_strlit("SELECT id, role_id, content FROM messages\n                    WHERE chat_id = ?1 AND instr(branches, ':' || ?2)\n                    ORDER BY id ASC\n                ");
    reveal_strlit("ORDER BY id ASC");
    let sql = branch_messages_sql();
    let clause = "ORDER BY id ASC"@;
    assert(clause.len() == 15);
    assert(sql.subrange(132, 132 + clause.len() as int) =~= clause);
    assert(forall|j: int| 132 + clause.len() <= j < sql.len() ==> sql[j] == ' ' || sql[j] == '\n');
}

/// The branch list is read from the oldest message of a conversation: the
/// statement orders its rows by increasing id and keeps the first.
pub proof fn law_first_branches_from_oldest_message()
    ensures
        ends_with_clause(first_branches_sql(), "ORDER BY id ASC\n                        LIMIT 1"@),
{
    reveal_strlit("SELECT branches FROM messages\n                        WHERE chat_id = ?1\n                        ORDER BY id ASC\n                        LIMIT 1\n                    ");
    reveal_strlit("ORDER BY id ASC\n                        LIMIT 1");
    let sql = first_branches_sql();
    let clause = "ORDER BY id ASC\n                        LIMIT 1"@;
    assert(clause.len() == 47);
    assert(sql.subrange(97, 97 + clause.len() as int) =~= clause);
    assert(forall|j: int| 97 + clause.len() <= j < sql.len() ==> sql[j] == ' ' || sql[j] == '\n');
}

/// Reads the branch list of the first message of a conversation.
pub fn first_branches_statement(chat_id: &str) -> (s: Statement)
    ensures
        s@ == first_branches_view(chat_id@),
{
    let mut params: Vec<Param> = Vec::new();
    params.push(Param::text(chat_id));
    let s = Statement::new("SELECT branches FROM messages\n                        WHERE chat_id = ?1\n                        ORDER BY id ASC\n                        LIMIT 1\n                    ", params);
    assert(s@.1 =~= seq![ParamView::Text(chat_id@)]);
    s
}

/// Reads the messages of a conversation that belong to a branch, oldest first.
pub fn branch_messages_statement(chat_id: &str, branch: &BranchID) -> (s: Statement)
    requires
        valid_utf8(branch@),
    ensures
        s@ == branch_messages_view(chat_id@, decode_utf8(branch@)),
{
    let mut params: Vec<Param> = Vec::new();
    params.push(Param::text(chat_id));
    params.push(Param::text(branch.as_str()));
    let s = Statement::new(
        "SELECT id, role_id, content FROM messages\n                    WHERE chat_id = ?1 AND instr(branches, ':' || ?2)\n                    ORDER BY id ASC\n                ",
        params,
    );
    assert(s@.1 =~= seq![ParamView::Text(chat_id@), ParamView::Text(decode_utf8(branch@))]);
    s
}

/// The text after the last `:` of `s`, if `s` holds a `:`.
pub open spec fn after_last_colon(s: Seq<char>) -> Option<Seq<char>>
    decreases s.len(),
{
    if s.len() == 0 {
        None
    } else if s.last() == ':' {
        Some(Seq::empty())
    } else {
        match after_last_colon(s.drop_last()) {
            Some(t) => Some(t.push(s.last())),
            None => None,
        }
    }
}

proof fn lemma_after_last_colon(s: Seq<char>, k: int)
    requires
        -1 <= k < s.len(),
        k >= 0 ==> s[k] == ':',
        forall|j: int| k < j < s.len() ==> s[j] != ':',
    ensures
        k >= 0 ==> after_last_colon(s) == Some(s.skip(k + 1)),
        k < 0 ==> after_last_colon(s) is None,
    decreases s.len(),
{
    if s.len() > 0 && k < s.len() - 1 {
        lemma_after_last_colon(s.drop_last(), k);
        if k >= 0 {
            assert(s.drop_last().skip(k + 1).push(s.last()) =~= s.skip(k + 1));
        }
    } else if s.len() > 0 {
        assert(s.skip(k + 1) =~= Seq::<char>::empty());
    }
}

/// The latest branch named in the branch list of a message, which lists its
/// branches each after a `:`: `Ok(None)` where the list holds no `:`, the
/// text after the last `:` where that is a branch id, and the refusal of
/// that text otherwise.
pub fn latest_branch(branches: &str) -> (r: Result<Option<BranchID>, InvalidBranchId>)
    ensures
        after_last_colon(branches@) is None ==> r matches Ok(None),
        after_last_colon(branches@) matches Some(last) ==> {
            &&& r is Ok <==> utf8_len(last) == 6
            &&& r matches Ok(id) ==> (id matches Some(b) && b@ == encode_utf8(last))
            &&& r matches Err(e) ==> e.param@ == last
        },
{
    let cs = chars_of(branches);
    let n = cs.len();
    let mut i = n;
    while i > 0
        invariant
            i <= n == cs@.len(),
            cs@ == branches@,
            forall|j: int| i <= j < n ==> cs@[j] != ':',
        decreases i,
    {
        if cs[i - 1] == ':' {
            proof {
                lemma_after_last_colon(cs@, i - 1);
            }
            let segment = string_of(&cs, i, n);
            assert(segment@ =~= cs@.skip(i as int));
            return match BranchID::from_param(segment.as_str()) {
                Ok(b) => Ok(Some(b)),
                Err(e) => Err(e),
            };
        }
        i = i - 1;
    }
    proof {
        lemma_after_last_colon(cs@, -1);
    }
    Ok(None)
}

/// The next step of loading the messages of a branch.
pub enum LoadStep {
    /// Run the statement and hand back the `branches` column of its first
    /// row, if there is one.
    ReadFirstBranches(Statement),
    /// Run the statement and hand back its rows.
    ReadBranch(Statement),
    /// Loading is over: there is no branch to read.
    NoMessages,
}

/// The first step of loading the messages of a conversation: the branch of
/// the query where there is one; otherwise the branch list of its first
/// message, to find the latest branch in.
pub fn start_loading(chat_id: &str, q: Option<LoadMessagesQuery>) -> (step: LoadStep)
    requires
        q matches Some(query) ==> valid_utf8(query.branch@),
    ensures
        q matches Some(query) ==> (step matches LoadStep::ReadBranch(s) && s@ == branch_messages_view(chat_id@, decode_utf8(query.branch@))),
        q is None ==> (step matches LoadStep::ReadFirstBranches(s) && s@ == first_branches_view(chat_id@)),
{
    match q {
        Some(query) => LoadStep::ReadBranch(branch_messages_statement(chat_id, &query.branch)),
        None => LoadStep::ReadFirstBranches(first_branches_statement(chat_id)),
    }
}

/// The step after the branch list of the first message was read: nothing to
/// load where the conversation has no message or the list names no branch;
/// the latest branch otherwise, or the refusal of its name.
pub fn after_first_branches(chat_id: &str, branches: Option<String>) -> (r: Result<LoadStep, InvalidBranchId>)
    ensures
        branches is None ==> r matches Ok(LoadStep::NoMessages),
        branches matches Some(list) ==> match after_last_colon(list@) {
            None => r matches Ok(LoadStep::NoMessages),
            Some(last) => {
                &&& r is Ok <==> utf8_len(last) == 6
                &&& r matches Ok(step) ==> (step matches LoadStep::ReadBranch(s) && s@ == branch_messages_view(chat_id@, last))
                &&& r matches Err(e) ==> e.param@ == last
            },
        },
{
    match branches {
        None => Ok(LoadStep::NoMessages),
        Some(list) => match latest_branch(list.as_str()) {
            Ok(None) => Ok(LoadStep::NoMessages),
            Ok(Some(branch)) => {
                proof {
                    let last = after_last_colon(list@)->0;
                    encode_utf8_valid_utf8(last);
                    encode_utf8_decode_utf8(last);
                }
                Ok(LoadStep::ReadBranch(branch_messages_statement(chat_id, &branch)))
            },
            Err(e) => Err(e),
        },
    }
}

/// The message that a record stores.
pub open spec fn record_is_message(record: MessageRecord, message: Message) -> bool {
    &&& message.id == record.id
    &&& message.role == role_of_id(record.role_id)
    &&& message.content@ == record.content@
}

/// The messages that records store, in the same order; `None` where a record
/// holds a role id that names no role.
pub fn messages_from_records(records: Vec<MessageRecord>) -> (r: Option<Vec<Message>>)
    ensures
        r is Some <==> forall|i: int| 0 <= i < records@.len() ==> #[trigger] records@[i].role_id < 3,
        r matches Some(messages) ==> {
            &&& messages@.len() == records@.len()
            &&& forall|i: int| 0 <= i < records@.len() ==> record_is_message(#[trigger] records@[i], messages@[i])
        },
{
    let n = records.len();
    let mut k: usize = 0;
    while k < n
        invariant
            n == records@.len(),
            k <= n,
            forall|i: int| 0 <= i < k ==> #[trigger] records@[i].role_id < 3,
        decreases n - k,
    {
        if records[k].role_id >= 3 {
            return None;
        }
        k = k + 1;
    }
    let mut messages: Vec<Message> = Vec::new();
    let mut k: usize = 0;
    while k < n
        invariant
            n == records@.len(),
            k <= n,
            messages@.len() == k,
            forall|i: int| 0 <= i < n ==> #[trigger] records@[i].role_id < 3,
            forall|i: int| 0 <= i < k ==> record_is_message(records@[i], #[trigger] messages@[i]),
        decreases n - k,
    {
        let record = &records[k];
        messages.push(Message { id: record.id, role: Role::from_id(record.role_id), content: record.content.clone() });
        k = k + 1;
    }
    Some(messages)
}

// ----------------------------------------------------------------------------
// Storing a message together with its response
// ----------------------------------------------------------------------------

pub open spec fn insert_pair_sql() -> Seq<char> {
    "INSERT INTO messages (chat_id, role_id, content)\n                VALUES (?1, ?2, ?3), (?4, ?5, ?6)\n                RETURNING id"@
}

/// Stores a user message and the assistant's response to it, returning the
/// ids of both rows.
pub fn insert_message_response_pair_statement(chat_id: &str, message: String, response: String) -> (s: Statement)
    ensures
        s@ == (insert_pair_sql(), seq![
            ParamView::Text(chat_id@), ParamView::Integer(role_id(Role::user) as u64), ParamView::Text(message@),
            ParamView::Text(chat_id@), ParamView::Integer(role_id(Role::assistant) as u64), ParamView::Text(response@),
        ]),
{
    let mut params: Vec<Param> = Vec::new();
    params.push(Param::text(chat_id));
    params.push(Param::Integer(Role::user.as_id() as u64));
    params.push(Param::Text(message));
    params.push(Param::text(chat_id));
    params.push(Param::Integer(Role::assistant.as_id() as u64));
    params.push(Param::Text(response));
    let s = Statement::new(
        "INSERT INTO messages (chat_id, role_id, content)\n                VALUES (?1, ?2, ?3), (?4, ?5, ?6)\n                RETURNING id",
        params,
    );
    assert(s@.1 =~= seq![
        ParamView::Text(chat_id@), ParamView::Integer(role_id(Role::user) as u64), ParamView::Text(message@),
        ParamView::Text(chat_id@), ParamView::Integer(role_id(Role::assistant) as u64), ParamView::Text(response@),
    ]);
    s
}

/// The two ids returned for a stored pair, smallest first; `None` where the
/// database did not return exactly two.
pub fn ordered_ids(ids: Vec<IDObject>) -> (r: Option<[usize; 2]>)
    ensures
        r is Some <==> ids@.len() == 2,
        r matches Some(pair) ==> {
            &&& pair[0] <= pair[1]
            &&& (pair[0] == ids@[0].id && pair[1] == ids@[1].id) || (pair[0] == ids@[1].id && pair[1] == ids@[0].id)
        },
{
    if ids.len() != 2 {
        return None;
    }
    let a = ids[0].id;
    let b = ids[1].id;
    if a <= b {
        Some([a, b])
    } else {
        Some([b, a])
    }
}

} // verus!
