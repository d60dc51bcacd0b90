//! Filtered, paged listings: the statements and parameters with which a
//! page of users, roles, permissions or audit records is read.
//!
//! A filter on a text column matches the rows that hold the given text
//! anywhere in the column; an empty text filters nothing. A page is asked
//! for by its number, counted from 1, and its size.

use vstd::prelude::*;
use vstd::string::StringExecFns;
use crate::text::{decimal_text, signed_decimal};

verus! {

/// The page that is read where the request names none.
pub const DEFAULT_PAGE: i64 = 1;

/// The size of a page where the request names none.
pub const DEFAULT_PAGE_SIZE: i64 = 10;

/// One page of a listing, with the number of rows that match in all.
#[derive(Debug)]
pub struct PageResponse<T> {
    pub items: Vec<T>,
    pub total: i64,
    pub page: i64,
    pub page_size: i64,
}

/// The filters of the user listing.
#[derive(Debug)]
pub struct UserQuery {
    pub username: Option<String>,
    pub nickname: Option<String>,
    pub email: Option<String>,
    pub status: Option<i32>,
}

/// The filters of the role listing.
#[derive(Debug)]
pub struct RoleQuery {
    pub name: Option<String>,
    pub code: Option<String>,
}

/// One condition of a statement, with the parameter bound to its
/// placeholder.
#[derive(Debug)]
pub struct Condition {
    pub clause: String,
    pub param: String,
}

/// Mathematical model of a [`Condition`].
pub struct ConditionView {
    pub clause: Seq<char>,
    pub param: Seq<char>,
}

impl View for Condition {
    type V = ConditionView;

    open spec fn view(&self) -> ConditionView {
        ConditionView { clause: self.clause@, param: self.param@ }
    }
}

/// What a page of a listing is read with: the statement that selects the
/// page, the statement that counts the matching rows, the parameters of the
/// conditions, which both statements take in this order, and the limit and
/// offset that the first statement takes after them.
#[derive(Debug)]
pub struct ListQuery {
    pub select: String,
    pub count: String,
    pub params: Vec<String>,
    pub page: i64,
    pub page_size: i64,
    pub offset: i64,
}

/// Why a page cannot be read.
#[derive(Debug, Clone, Copy, PartialEq, Eq)]
pub enum ListError {
    /// The first row of the page has a number that no offset can hold.
    PageOutOfRange,
}

/// The models of a list of conditions.
pub open spec fn conditions_of(conditions: Seq<Condition>) -> Seq<ConditionView> {
    Seq::new(conditions.len(), |i: int| conditions[i]@)
}

/// The texts of a list of strings.
pub open spec fn texts_of(strings: Seq<String>) -> Seq<Seq<char>> {
    Seq::new(strings.len(), |i: int| strings[i]@)
}

/// The condition that `column` holds `value` somewhere; none for an empty
/// value.
pub open spec fn like_of(column: Seq<char>, value: Seq<char>) -> Option<ConditionView> {
    if value.len() == 0 {
        None
    } else {
        Some(ConditionView { clause: column + " LIKE ?"@, param: "%"@ + value + "%"@ })
    }
}

/// The condition that `column` equals `value`; none where no value is
/// given.
pub open spec fn equals_of(column: Seq<char>, value: Option<i32>) -> Option<ConditionView> {
    match value {
        Some(v) => Some(ConditionView { clause: column + " = ?"@, param: signed_decimal(v as int) }),
        None => None,
    }
}

/// The clauses of the conditions, joined by `AND`.
pub open spec fn joined(conditions: Seq<ConditionView>) -> Seq<char>
    decreases conditions.len(),
{
    if conditions.len() == 0 {
        Seq::empty()
    } else if conditions.len() == 1 {
        conditions[0].clause
    } else {
        joined(conditions.drop_last()) + " AND "@ + conditions.last().clause
    }
}

/// The `WHERE` part of a statement: empty where there is no condition.
pub open spec fn where_part(conditions: Seq<ConditionView>) -> Seq<char> {
    if conditions.len() == 0 {
        Seq::empty()
    } else {
        " WHERE "@ + joined(conditions)
    }
}

/// The conditions that are present, in order.
pub open spec fn present(conditions: Seq<Option<ConditionView>>) -> Seq<ConditionView>
    decreases conditions.len(),
{
    if conditions.len() == 0 {
        Seq::empty()
    } else {
        match conditions.last() {
            Some(c) => present(conditions.drop_last()).push(c),
            None => present(conditions.drop_last()),
        }
    }
}

/// The number of rows that come before the page.
pub open spec fn offset_of(page: i64, page_size: i64) -> int {
    (page - 1) * page_size
}

/// Mathematical model of a [`ListQuery`].
pub struct ListQueryView {
    pub select: Seq<char>,
    pub count: Seq<char>,
    pub params: Seq<Seq<char>>,
    pub page: i64,
    pub page_size: i64,
    pub offset: int,
}

impl View for ListQuery {
    type V = ListQueryView;

    open spec fn view(&self) -> ListQueryView {
        ListQueryView {
            select: self.select@,
            count: self.count@,
            params: texts_of(self.params@),
            page: self.page,
            page_size: self.page_size,
            offset: self.offset as int,
        }
    }
}

/// What a page of `table` is read with, under `conditions`; `order` is
/// empty or the `ORDER BY` part with a space before it.
pub open spec fn list_query_of(
    table: Seq<char>,
    order: Seq<char>,
    conditions: Seq<ConditionView>,
    page: i64,
    page_size: i64,
) -> ListQueryView {
    ListQueryView {
        select: "SELECT * FROM "@ + table + where_part(conditions) + order + " LIMIT ? OFFSET ?"@,
        count: "SELECT COUNT(*) FROM "@ + table + where_part(conditions),
        params: Seq::new(conditions.len(), |i: int| conditions[i].param),
        page,
        page_size,
        offset: offset_of(page, page_size),
    }
}

/// The text of an optional filter; empty where none is given.
pub open spec fn filter_text(value: Option<String>) -> Seq<char> {
    match value {
        Some(v) => v@,
        None => Seq::empty(),
    }
}

/// The page number of a request.
pub open spec fn page_of(page: Option<i64>) -> i64 {
    match page {
        Some(p) => p,
        None => DEFAULT_PAGE,
    }
}

/// The page size of a request.
pub open spec fn page_size_of(page_size: Option<i64>) -> i64 {
    match page_size {
        Some(s) => s,
        None => DEFAULT_PAGE_SIZE,
    }
}

/// The offset fits what a statement can be given.
pub open spec fn in_range(page: i64, page_size: i64) -> bool {
    i64::MIN <= offset_of(page, page_size) <= i64::MAX
}

/// The condition that `column` holds `value` somewhere.
pub fn like_condition(column: &str, value: &str) -> (r: Option<Condition>)
    ensures
        match r {
            Some(c) => like_of(column@, value@) == Some(c@),
            None => like_of(column@, value@) is None,
        },
{
    if value.is_empty() {
        None
    } else {
        let mut clause = column.to_owned();
        clause.append(" LIKE ?");
        let mut param = "%".to_owned();
        param.append(value);
        param.append("%");
        Some(Condition { clause, param })
    }
}

/// The condition that `column` equals `value`.
pub fn equals_condition(column: &str, value: Option<i32>) -> (r: Option<Condition>)
    ensures
        match r {
            Some(c) => equals_of(column@, value) == Some(c@),
            None => equals_of(column@, value) is None,
        },
{
    match value {
        Some(v) => {
            let mut clause = column.to_owned();
            clause.append(" = ?");
            Some(Condition { clause, param: decimal_text(v) })
        },
        None => None,
    }
}

/// The number of rows that come before the page, where an offset can hold
/// it.
pub fn page_offset(page: i64, page_size: i64) -> (r: Result<i64, ListError>)
    ensures
        match r {
            Ok(offset) => in_range(page, page_size) && offset == offset_of(page, page_size),
            Err(e) => !in_range(page, page_size) && e == ListError::PageOutOfRange,
        },
{
    let before: i128 = page as i128 - 1;
    let size: i128 = page_size as i128;
    assert(-0x4000_0000_0000_0000_8000_0000_0000_0000 <= before * size
        <= 0x4000_0000_0000_0000_8000_0000_0000_0000) by (nonlinear_arith)
        requires
            -0x8000_0000_0000_0001 <= before <= 0x8000_0000_0000_0001,
            -0x8000_0000_0000_0000 <= size <= 0x8000_0000_0000_0000,
    ;
    let product: i128 = before * size;
    if product < i64::MIN as i128 || product > i64::MAX as i128 {
        Err(ListError::PageOutOfRange)
    } else {
        Ok(product as i64)
    }
}

/// The clauses of the conditions, joined by `AND`.
fn join_clauses(conditions: &Vec<Condition>) -> (out: String)
    ensures
        out@ == joined(conditions_of(conditions@)),
{
    let ghost all = conditions_of(conditions@);
    let mut out = String::new();
    let mut i: usize = 0;
    while i < conditions.len()
        invariant
            i <= conditions.len(),
            all == conditions_of(conditions@),
            out@ == joined(all.take(i as int)),
        decreases conditions.len() - i,
    {
        if i > 0 {
            out.append(" AND ");
        }
        out.append(conditions[i].clause.as_str());
        proof {
            let next = all.take(i + 1);
            assert(next.drop_last() =~= all.take(i as int));
            assert(next.last() == conditions[i as int]@);
            if i == 0 {
                assert(joined(all.take(0)) =~= Seq::<char>::empty());
                assert(out@ =~= next[0].clause);
            }
        }
        i = i + 1;
    }
    assert(all.take(i as int) =~= all);
    out
}

/// What a page of `table` is read with, under `conditions`.
pub fn list_query(table: &str, order: &str, conditions: Vec<Condition>, page: i64, page_size: i64) -> (r:
    Result<ListQuery, ListError>)
    ensures
        match r {
            Ok(q) => in_range(page, page_size) && q@ == list_query_of(
                table@,
                order@,
                conditions_of(conditions@),
                page,
                page_size,
            ),
            Err(e) => !in_range(page, page_size) && e == ListError::PageOutOfRange,
        },
{
    let offset = match page_offset(page, page_size) {
        Ok(offset) => offset,
        Err(e) => {
            return Err(e);
        },
    };
    let mut count = "SELECT COUNT(*) FROM ".to_owned();
    count.append(table);
    let mut select = "SELECT * FROM ".to_owned();
    select.append(table);
    if conditions.len() > 0 {
        let clauses = join_clauses(&conditions);
        count.append(" WHERE ");
        count.append(clauses.as_str());
        select.append(" WHERE ");
        select.append(clauses.as_str());
    }
    select.append(order);
    select.append(" LIMIT ? OFFSET ?");
    let ghost all = conditions_of(conditions@);
    let mut params: Vec<String> = Vec::new();
    let mut conditions = conditions;
    let ghost given = conditions@;
    let mut i: usize = 0;
    while i < conditions.len()
        invariant
            i <= conditions.len(),
            conditions.len() == given.len(),
            all == conditions_of(given),
            params.len() == i,
            forall|k: int| 0 <= k < i ==> (#[trigger] params[k])@ == all[k].param,
            forall|k: int| i <= k < conditions.len() ==> conditions[k] == given[k],
        decreases conditions.len() - i,
    {
        let mut taken = String::new();
        core::mem::swap(&mut taken, &mut conditions[i].param);
        params.push(taken);
        i = i + 1;
    }
    let q = ListQuery { select, count, params, page, page_size, offset };
    proof {
        let want = list_query_of(table@, order@, all, page, page_size);
        assert(q@.params =~= want.params);
        assert(q@.select =~= want.select);
        assert(q@.count =~= want.count);
    }
    Ok(q)
}

/// The models of a list of conditions of which some may be absent.
pub open spec fn optional_conditions_of(conditions: Seq<Option<Condition>>) -> Seq<
    Option<ConditionView>,
> {
    Seq::new(
        conditions.len(),
        |i: int|
            match conditions[i] {
                Some(c) => Some(c@),
                None => None,
            },
    )
}

/// Keeps the conditions that are present.
pub fn present_conditions(conditions: Vec<Option<Condition>>) -> (out: Vec<Condition>)
    ensures
        conditions_of(out@) == present(optional_conditions_of(conditions@)),
{
    let ghost all = optional_conditions_of(conditions@);
    let mut out: Vec<Condition> = Vec::new();
    let mut rest = conditions;
    let ghost given = rest@;
    let mut i: usize = 0;
    assert(all.take(0) =~= Seq::<Option<ConditionView>>::empty());
    assert(conditions_of(out@) =~= present(all.take(0)));
    while i < rest.len()
        invariant
            i <= rest.len(),
            rest.len() == given.len(),
            all == optional_conditions_of(given),
            conditions_of(out@) == present(all.take(i as int)),
            forall|k: int| i <= k < rest.len() ==> rest[k] == given[k],
        decreases rest.len() - i,
    {
        let mut taken: Option<Condition> = None;
        core::mem::swap(&mut taken, &mut rest[i]);
        let ghost before = out@;
        proof {
            assert(all.take(i + 1).drop_last() =~= all.take(i as int));
            assert(all.take(i + 1).last() == all[i as int]);
        }
        match taken {
            Some(c) => {
                out.push(c);
                assert(conditions_of(out@) =~= conditions_of(before).push(c@));
            },
            None => {},
        }
        i = i + 1;
    }
    assert(all.take(i as int) =~= all);
    out
}

/// The text of an optional filter.
fn filter_value(value: &Option<String>) -> (text: &str)
    ensures
        text@ == filter_text(*value),
{
    proof {
        reveal_strlit("");
        assert(""@ =~= Seq::<char>::empty());
    }
    match value {
        Some(v) => v.as_str(),
        None => "",
    }
}

/// The conditions of the user listing.
pub open spec fn user_conditions(filter: UserQuery) -> Seq<ConditionView> {
    present(
        seq![
            like_of("username"@, filter_text(filter.username)),
            like_of("nickname"@, filter_text(filter.nickname)),
            like_of("email"@, filter_text(filter.email)),
            equals_of("status"@, filter.status),
        ],
    )
}

/// The conditions of a listing by name and code.
pub open spec fn name_code_conditions(name: Seq<char>, code: Seq<char>) -> Seq<ConditionView> {
    present(seq![like_of("name"@, name), like_of("code"@, code)])
}

/// The conditions of the audit log listing.
pub open spec fn log_conditions(
    username: Seq<char>,
    module: Seq<char>,
    operation: Seq<char>,
    status: Option<i32>,
) -> Seq<ConditionView> {
    present(
        seq![
            like_of("username"@, username),
            like_of("module"@, module),
            like_of("operation"@, operation),
            equals_of("status"@, status),
        ],
    )
}

/// What a page of users is read with.
pub fn get_users(filter: &UserQuery, page: Option<i64>, page_size: Option<i64>) -> (r: Result<
    ListQuery,
    ListError,
>)
    ensures
        match r {
            Ok(q) => in_range(page_of(page), page_size_of(page_size)) && q@ == list_query_of(
                "users"@,
                ""@,
                user_conditions(*filter),
                page_of(page),
                page_size_of(page_size),
            ),
            Err(e) => !in_range(page_of(page), page_size_of(page_size)) && e
                == ListError::PageOutOfRange,
        },
{
    let mut given: Vec<Option<Condition>> = Vec::new();
    given.push(like_condition("username", filter_value(&filter.username)));
    given.push(like_condition("nickname", filter_value(&filter.nickname)));
    given.push(like_condition("email", filter_value(&filter.email)));
    given.push(equals_condition("status", filter.status));
    assert(optional_conditions_of(given@) =~= seq![
        like_of("username"@, filter_text(filter.username)),
        like_of("nickname"@, filter_text(filter.nickname)),
        like_of("email"@, filter_text(filter.email)),
        equals_of("status"@, filter.status),
    ]);
    list_query("users", "", present_conditions(given), requested_page(page), requested_size(page_size))
}

/// What a page of roles is read with.
pub fn get_roles(filter: &RoleQuery, page: Option<i64>, page_size: Option<i64>) -> (r: Result<
    ListQuery,
    ListError,
>)
    ensures
        match r {
            Ok(q) => in_range(page_of(page), page_size_of(page_size)) && q@ == list_query_of(
                "roles"@,
                ""@,
                name_code_conditions(filter_text(filter.name), filter_text(filter.code)),
                page_of(page),
                page_size_of(page_size),
            ),
            Err(e) => !in_range(page_of(page), page_size_of(page_size)) && e
                == ListError::PageOutOfRange,
        },
{
    list_query(
        "roles",
        "",
        by_name_and_code(filter_value(&filter.name), filter_value(&filter.code)),
        requested_page(page),
        requested_size(page_size),
    )
}

/// What a page of permissions is read with.
pub fn get_permissions(name: &str, code: &str, page: Option<i64>, page_size: Option<i64>) -> (r:
    Result<ListQuery, ListError>)
    ensures
        match r {
            Ok(q) => in_range(page_of(page), page_size_of(page_size)) && q@ == list_query_of(
                "permissions"@,
                ""@,
                name_code_conditions(name@, code@),
                page_of(page),
                page_size_of(page_size),
            ),
            Err(e) => !in_range(page_of(page), page_size_of(page_size)) && e
                == ListError::PageOutOfRange,
        },
{
    list_query(
        "permissions",
        "",
        by_name_and_code(name, code),
        requested_page(page),
        requested_size(page_size),
    )
}

/// What a page of audit records is read with, the latest first.
pub fn get_operation_logs(
    username: &str,
    module: &str,
    operation: &str,
    status: Option<i32>,
    page: Option<i64>,
    page_size: Option<i64>,
) -> (r: Result<ListQuery, ListError>)
    ensures
        match r {
            Ok(q) => in_range(page_of(page), page_size_of(page_size)) && q@ == list_query_of(
                "operation_logs"@,
                " ORDER BY created_at DESC"@,
                log_conditions(username@, module@, operation@, status),
                page_of(page),
                page_size_of(page_size),
            ),
            Err(e) => !in_range(page_of(page), page_size_of(page_size)) && e
                == ListError::PageOutOfRange,
        },
{
    let mut given: Vec<Option<Condition>> = Vec::new();
    given.push(like_condition("username", username));
    given.push(like_condition("module", module));
    given.push(like_condition("operation", operation));
    given.push(equals_condition("status", status));
    assert(optional_conditions_of(given@) =~= seq![
        like_of("username"@, username@),
        like_of("module"@, module@),
        like_of("operation"@, operation@),
        equals_of("status"@, status),
    ]);
    list_query(
        "operation_logs",
        " ORDER BY created_at DESC",
        present_conditions(given),
        requested_page(page),
        requested_size(page_size),
    )
}

/// The conditions of a listing by name and code.
fn by_name_and_code(name: &str, code: &str) -> (out: Vec<Condition>)
    ensures
        conditions_of(out@) == name_code_conditions(name@, code@),
{
    let mut given: Vec<Option<Condition>> = Vec::new();
    given.push(like_condition("name", name));
    given.push(like_condition("code", code));
    assert(optional_conditions_of(given@) =~= seq![like_of("name"@, name@), like_of("code"@, code@)]);
    present_conditions(given)
}

/// The page number of a request.
pub fn requested_page(page: Option<i64>) -> (p: i64)
    ensures
        p == page_of(page),
{
    match page {
        Some(p) => p,
        None => DEFAULT_PAGE,
    }
}

/// The page size of a request.
pub fn requested_size(page_size: Option<i64>) -> (s: i64)
    ensures
        s == page_size_of(page_size),
{
    match page_size {
        Some(s) => s,
        None => DEFAULT_PAGE_SIZE,
    }
}

} // verus!
