//! Full replacement of the associations of one owner: the permissions of a
//! role, the roles of a user.
//!
//! The caller submits the complete membership it wants, not a difference.
//! The protocol is one transaction: delete every association of the owner,
//! insert one for each submitted member, commit. A step that fails ends it,
//! and what the transaction did so far is rolled back, so that the table
//! holds either the old membership or the new one and never a part of
//! either. A member submitted twice violates the uniqueness of the pair and
//! fails the whole replacement: callers remove duplicates first.
//!
//! [`Reassignment`] holds the decisions: which command comes next, and what
//! follows from its success or failure. Whoever owns the database performs
//! the commands. [`Associations`] is the table as the protocol sees it, in
//! memory, and [`reassign`] runs the protocol on it.

use vstd::prelude::*;

verus! {

/// The status of a replacement that went through.
pub const NO_CONTENT: u16 = 204;

/// The status of one that did not.
pub const INTERNAL_SERVER_ERROR: u16 = 500;

/// The step at which a replacement failed.
#[derive(Debug, Clone, Copy, PartialEq, Eq)]
pub enum TransactionFailure {
    /// The transaction could not be started.
    Begin,
    /// The owner's associations could not be deleted.
    Delete,
    /// A submitted member could not be inserted.
    Insert,
    /// The transaction could not be committed.
    Commit,
}

/// A command to the association table.
#[derive(Debug, Clone, Copy, PartialEq, Eq)]
pub enum TxCommand {
    /// Start a transaction.
    Begin,
    /// Delete every association of this owner.
    DeleteOwned(i64),
    /// Insert the association of this owner with this member.
    Insert(i64, i64),
    /// Make what the transaction did permanent.
    Commit,
    /// Undo what the transaction did.
    Rollback,
}

/// Where a replacement stands: the command that comes next, or how it
/// ended.
#[derive(Debug, Clone, Copy, PartialEq, Eq)]
pub enum Stage {
    Begin,
    Delete,
    /// Insert the member at this position of the submitted list.
    Insert(usize),
    Commit,
    /// Roll back after the failure of this step.
    Rollback(TransactionFailure),
    Done(Result<(), TransactionFailure>),
}

/// The kind of association that is replaced.
#[derive(Debug, Clone, Copy, PartialEq, Eq)]
pub enum Relation {
    /// The permissions of a role.
    RolePermissions,
    /// The roles of a user.
    UserRoles,
}

impl Relation {
    /// The statement that deletes the associations of an owner.
    pub open spec fn delete_text(self) -> Seq<char> {
        match self {
            Relation::RolePermissions => "DELETE FROM role_permissions WHERE role_id = ?"@,
            Relation::UserRoles => "DELETE FROM user_roles WHERE user_id = ?"@,
        }
    }

    /// The statement that inserts the association of an owner with a
    /// member.
    pub open spec fn insert_text(self) -> Seq<char> {
        match self {
            Relation::RolePermissions =>
                "INSERT INTO role_permissions (role_id, permission_id) VALUES (?, ?)"@,
            Relation::UserRoles => "INSERT INTO user_roles (user_id, role_id) VALUES (?, ?)"@,
        }
    }

    /// What the client is told of a replacement that failed at `failure`.
    pub open spec fn failure_text(self, failure: TransactionFailure) -> Seq<char> {
        match (failure, self) {
            (TransactionFailure::Begin, _) => "Failed to start transaction"@,
            (TransactionFailure::Delete, Relation::RolePermissions) =>
                "Failed to delete existing permissions"@,
            (TransactionFailure::Delete, Relation::UserRoles) => "Failed to delete existing roles"@,
            (TransactionFailure::Insert, Relation::RolePermissions) =>
                "Failed to add new permissions"@,
            (TransactionFailure::Insert, Relation::UserRoles) => "Failed to add new roles"@,
            (TransactionFailure::Commit, _) => "Failed to commit transaction"@,
        }
    }

    /// The statement that deletes the associations of an owner; its one
    /// parameter is the owner.
    pub fn delete_statement(&self) -> (sql: &'static str)
        ensures
            sql@ == self.delete_text(),
    {
        match self {
            Relation::RolePermissions => "DELETE FROM role_permissions WHERE role_id = ?",
            Relation::UserRoles => "DELETE FROM user_roles WHERE user_id = ?",
        }
    }

    /// The statement that inserts the association of an owner with a
    /// member; its parameters are the owner and the member.
    pub fn insert_statement(&self) -> (sql: &'static str)
        ensures
            sql@ == self.insert_text(),
    {
        match self {
            Relation::RolePermissions =>
                "INSERT INTO role_permissions (role_id, permission_id) VALUES (?, ?)",
            Relation::UserRoles => "INSERT INTO user_roles (user_id, role_id) VALUES (?, ?)",
        }
    }

    /// What the client is told of a replacement that failed at `failure`.
    pub fn failure_message(&self, failure: TransactionFailure) -> (text: &'static str)
        ensures
            text@ == self.failure_text(failure),
    {
        match failure {
            TransactionFailure::Begin => "Failed to start transaction",
            TransactionFailure::Delete => match self {
                Relation::RolePermissions => "Failed to delete existing permissions",
                Relation::UserRoles => "Failed to delete existing roles",
            },
            TransactionFailure::Insert => match self {
                Relation::RolePermissions => "Failed to add new permissions",
                Relation::UserRoles => "Failed to add new roles",
            },
            TransactionFailure::Commit => "Failed to commit transaction",
        }
    }
}

/// One replacement in progress.
#[derive(Debug)]
pub struct Reassignment {
    pub relation: Relation,
    pub owner: i64,
    pub members: Vec<i64>,
    pub stage: Stage,
}

/// The command that comes next at `stage`, if any.
pub open spec fn command_at(stage: Stage, owner: i64, members: Seq<i64>) -> Option<TxCommand> {
    match stage {
        Stage::Begin => Some(TxCommand::Begin),
        Stage::Delete => Some(TxCommand::DeleteOwned(owner)),
        Stage::Insert(k) => Some(TxCommand::Insert(owner, members[k as int])),
        Stage::Commit => Some(TxCommand::Commit),
        Stage::Rollback(_) => Some(TxCommand::Rollback),
        Stage::Done(_) => None,
    }
}

/// The stage that follows `stage` once its command has succeeded (`ok`) or
/// failed, for a list of `count` members.
pub open spec fn next_stage(stage: Stage, ok: bool, count: int) -> Stage {
    match stage {
        Stage::Begin => if ok {
            Stage::Delete
        } else {
            Stage::Done(Err(TransactionFailure::Begin))
        },
        Stage::Delete => if !ok {
            Stage::Rollback(TransactionFailure::Delete)
        } else if count == 0 {
            Stage::Commit
        } else {
            Stage::Insert(0)
        },
        Stage::Insert(k) => if !ok {
            Stage::Rollback(TransactionFailure::Insert)
        } else if k + 1 < count {
            Stage::Insert((k + 1) as usize)
        } else {
            Stage::Commit
        },
        Stage::Commit => if ok {
            Stage::Done(Ok(()))
        } else {
            Stage::Rollback(TransactionFailure::Commit)
        },
        Stage::Rollback(failure) => Stage::Done(Err(failure)),
        Stage::Done(result) => Stage::Done(result),
    }
}

/// The stage is one that a list of `count` members can be at.
pub open spec fn stage_wf(stage: Stage, count: int) -> bool {
    stage matches Stage::Insert(k) ==> k < count
}

impl Reassignment {
    /// The stage fits the list of members.
    pub open spec fn wf(&self) -> bool {
        stage_wf(self.stage, self.members.len() as int)
    }

    /// A replacement of the associations of `owner` by `members`, about to
    /// begin.
    pub fn new(relation: Relation, owner: i64, members: Vec<i64>) -> (r: Reassignment)
        ensures
            r.wf(),
            r.relation == relation,
            r.owner == owner,
            r.members@ == members@,
            r.stage == Stage::Begin,
    {
        Reassignment { relation, owner, members, stage: Stage::Begin }
    }

    /// The command to perform next; `None` once the replacement has ended.
    pub fn command(&self) -> (cmd: Option<TxCommand>)
        requires
            self.wf(),
        ensures
            cmd == command_at(self.stage, self.owner, self.members@),
    {
        match self.stage {
            Stage::Begin => Some(TxCommand::Begin),
            Stage::Delete => Some(TxCommand::DeleteOwned(self.owner)),
            Stage::Insert(k) => Some(TxCommand::Insert(self.owner, self.members[k])),
            Stage::Commit => Some(TxCommand::Commit),
            Stage::Rollback(_) => Some(TxCommand::Rollback),
            Stage::Done(_) => None,
        }
    }

    /// Moves on after the command has been performed: `ok` tells whether
    /// it succeeded.
    pub fn advance(&mut self, ok: bool)
        requires
            old(self).wf(),
        ensures
            final(self).wf(),
            final(self).relation == old(self).relation,
            final(self).owner == old(self).owner,
            final(self).members == old(self).members,
            final(self).stage == next_stage(old(self).stage, ok, old(self).members.len() as int),
    {
        let count = self.members.len();
        let next = match self.stage {
            Stage::Begin => if ok {
                Stage::Delete
            } else {
                Stage::Done(Err(TransactionFailure::Begin))
            },
            Stage::Delete => if !ok {
                Stage::Rollback(TransactionFailure::Delete)
            } else if count == 0 {
                Stage::Commit
            } else {
                Stage::Insert(0)
            },
            Stage::Insert(k) => if !ok {
                Stage::Rollback(TransactionFailure::Insert)
            } else if k + 1 < count {
                Stage::Insert(k + 1)
            } else {
                Stage::Commit
            },
            Stage::Commit => if ok {
                Stage::Done(Ok(()))
            } else {
                Stage::Rollback(TransactionFailure::Commit)
            },
            Stage::Rollback(failure) => Stage::Done(Err(failure)),
            Stage::Done(result) => Stage::Done(result),
        };
        self.stage = next;
    }

    /// How the replacement ended; `None` while it is under way.
    pub fn outcome(&self) -> (r: Option<Result<(), TransactionFailure>>)
        ensures
            r == match self.stage {
                Stage::Done(result) => Some(result),
                _ => None,
            },
    {
        match self.stage {
            Stage::Done(result) => Some(result),
            _ => None,
        }
    }

    /// The status that the client gets: [`NO_CONTENT`] for a replacement
    /// that went through, [`INTERNAL_SERVER_ERROR`] for one that failed;
    /// `None` while it is under way.
    pub fn response_status(&self) -> (code: Option<u16>)
        ensures
            code == match self.stage {
                Stage::Done(Ok(_)) => Some(NO_CONTENT),
                Stage::Done(Err(_)) => Some(INTERNAL_SERVER_ERROR),
                _ => None,
            },
    {
        match self.stage {
            Stage::Done(Ok(_)) => Some(NO_CONTENT),
            Stage::Done(Err(_)) => Some(INTERNAL_SERVER_ERROR),
            _ => None,
        }
    }
}

/// What a client sends to replace the permissions of a role: all the
/// permissions that the role is to have.
#[derive(Debug)]
pub struct RolePermissions {
    pub permission_ids: Vec<i64>,
}

/// What a client sends to replace the roles of a user: all the roles that
/// the user is to have.
#[derive(Debug)]
pub struct UserRoles {
    pub role_ids: Vec<i64>,
}

/// The replacement of the permissions of the role `role_id` by those that
/// the request names.
pub fn update_role_permissions(role_id: i64, request: RolePermissions) -> (r: Reassignment)
    ensures
        r.wf(),
        r.relation == Relation::RolePermissions,
        r.owner == role_id,
        r.members@ == request.permission_ids@,
        r.stage == Stage::Begin,
{
    Reassignment::new(Relation::RolePermissions, role_id, request.permission_ids)
}

/// The replacement of the roles of the user `user_id` by those that the
/// request names.
pub fn update_user_roles(user_id: i64, request: UserRoles) -> (r: Reassignment)
    ensures
        r.wf(),
        r.relation == Relation::UserRoles,
        r.owner == user_id,
        r.members@ == request.role_ids@,
        r.stage == Stage::Begin,
{
    Reassignment::new(Relation::UserRoles, user_id, request.role_ids)
}

/// What an association table holds: the pairs of owner and member that
/// every reader sees, and, while a transaction is open, the pairs as the
/// transaction has them.
pub struct TableState {
    pub committed: Set<(i64, i64)>,
    pub working: Option<Set<(i64, i64)>>,
}

/// `pairs` without the associations of `owner`.
pub open spec fn cleared(pairs: Set<(i64, i64)>, owner: i64) -> Set<(i64, i64)> {
    Set::new(|p: (i64, i64)| pairs.contains(p) && p.0 != owner)
}

/// The associations of `owner` with each of `members`.
pub open spec fn membership(owner: i64, members: Seq<i64>) -> Set<(i64, i64)> {
    Set::new(|p: (i64, i64)| p.0 == owner && members.contains(p.1))
}

/// `pairs` with the associations of `owner` replaced by those with
/// `members`.
pub open spec fn replaced(pairs: Set<(i64, i64)>, owner: i64, members: Seq<i64>) -> Set<(i64, i64)> {
    cleared(pairs, owner).union(membership(owner, members))
}

/// The members that `pairs` associates with `owner`.
pub open spec fn current_set(pairs: Set<(i64, i64)>, owner: i64) -> Set<i64> {
    Set::new(|m: i64| pairs.contains((owner, m)))
}

/// What a command does to the table, and whether it succeeds. A command
/// that fails changes nothing. Only one transaction is open at a time, and
/// only an open one takes deletions, insertions and a commit; an insertion
/// fails where the transaction already holds the pair.
pub open spec fn apply(table: TableState, cmd: TxCommand) -> (TableState, bool) {
    match (cmd, table.working) {
        (TxCommand::Begin, None) => (
            TableState { working: Some(table.committed), ..table },
            true,
        ),
        (TxCommand::DeleteOwned(owner), Some(pairs)) => (
            TableState { working: Some(cleared(pairs, owner)), ..table },
            true,
        ),
        (TxCommand::Insert(owner, member), Some(pairs)) => if pairs.contains((owner, member)) {
            (table, false)
        } else {
            (TableState { working: Some(pairs.insert((owner, member))), ..table }, true)
        },
        (TxCommand::Commit, Some(pairs)) => (TableState { committed: pairs, working: None }, true),
        (TxCommand::Rollback, _) => (TableState { working: None, ..table }, true),
        _ => (table, false),
    }
}

/// The pairs that a list of rows holds.
pub open spec fn pairs_of(rows: Seq<(i64, i64)>) -> Set<(i64, i64)> {
    Set::new(|p: (i64, i64)| rows.contains(p))
}

/// An association table in memory, with the uniqueness of each pair and
/// one transaction at a time.
#[derive(Debug)]
pub struct Associations {
    rows: Vec<(i64, i64)>,
    draft: Option<Vec<(i64, i64)>>,
}

/// Tells whether `rows` holds the pair of `owner` and `member`.
fn holds(rows: &Vec<(i64, i64)>, owner: i64, member: i64) -> (found: bool)
    ensures
        found == pairs_of(rows@).contains((owner, member)),
{
    let mut i: usize = 0;
    while i < rows.len()
        invariant
            i <= rows.len(),
            forall|k: int| 0 <= k < i ==> rows[k] != (owner, member),
        decreases rows.len() - i,
    {
        if rows[i].0 == owner && rows[i].1 == member {
            assert(rows@[i as int] == (owner, member));
            return true;
        }
        i = i + 1;
    }
    false
}

/// The rows of `rows` that do not belong to `owner`.
fn without_owner(rows: &Vec<(i64, i64)>, owner: i64) -> (kept: Vec<(i64, i64)>)
    ensures
        pairs_of(kept@) == cleared(pairs_of(rows@), owner),
{
    let mut kept: Vec<(i64, i64)> = Vec::new();
    let mut i: usize = 0;
    while i < rows.len()
        invariant
            i <= rows.len(),
            forall|p: (i64, i64)|
                kept@.contains(p) <==> (rows@.take(i as int).contains(p) && p.0 != owner),
        decreases rows.len() - i,
    {
        let row = rows[i];
        let ghost before = kept@;
        if row.0 != owner {
            kept.push(row);
        }
        proof {
            assert(rows@.take(i + 1) =~= rows@.take(i as int).push(row));
            assert forall|p: (i64, i64)|
                kept@.contains(p) <==> (rows@.take(i + 1).contains(p) && p.0 != owner) by {
                lemma_push_contains(rows@.take(i as int), row, p);
                if row.0 != owner {
                    lemma_push_contains(before, row, p);
                }
            }
        }
        i = i + 1;
    }
    assert(rows@.take(i as int) =~= rows@);
    assert(pairs_of(kept@) =~= cleared(pairs_of(rows@), owner));
    kept
}

/// A list with one more item holds what it held before, and the item.
pub proof fn lemma_push_contains<T>(list: Seq<T>, item: T, x: T)
    ensures
        list.push(item).contains(x) <==> (list.contains(x) || x == item),
{
    if list.contains(x) {
        let k = choose|k: int| 0 <= k < list.len() && list[k] == x;
        assert(list.push(item)[k] == x);
    }
    if x == item {
        assert(list.push(item)[list.len() as int] == x);
    }
}

/// A copy of a list of rows.
fn copy_rows(rows: &Vec<(i64, i64)>) -> (copy: Vec<(i64, i64)>)
    ensures
        copy@ == rows@,
{
    let mut copy: Vec<(i64, i64)> = Vec::new();
    let mut i: usize = 0;
    while i < rows.len()
        invariant
            i <= rows.len(),
            copy@ == rows@.take(i as int),
        decreases rows.len() - i,
    {
        copy.push(rows[i]);
        assert(rows@.take(i + 1) =~= rows@.take(i as int).push(rows[i as int]));
        i = i + 1;
    }
    assert(rows@.take(i as int) =~= rows@);
    copy
}

impl View for Associations {
    type V = TableState;

    closed spec fn view(&self) -> TableState {
        TableState {
            committed: pairs_of(self.rows@),
            working: match self.draft {
                Some(rows) => Some(pairs_of(rows@)),
                None => None,
            },
        }
    }
}

impl Associations {
    /// A table that holds `rows`, with no transaction open.
    pub fn from_rows(rows: Vec<(i64, i64)>) -> (table: Associations)
        ensures
            table@ == (TableState { committed: pairs_of(rows@), working: None }),
    {
        Associations { rows, draft: None }
    }

    /// Tells whether readers see `member` associated with `owner`.
    pub fn contains(&self, owner: i64, member: i64) -> (found: bool)
        ensures
            found == self@.committed.contains((owner, member)),
    {
        holds(&self.rows, owner, member)
    }

    /// The members that readers see associated with `owner`, each once.
    pub fn members_of(&self, owner: i64) -> (members: Vec<i64>)
        ensures
            members@.to_set() == current_set(self@.committed, owner),
            members@.no_duplicates(),
    {
        let mut members: Vec<i64> = Vec::new();
        let mut i: usize = 0;
        while i < self.rows.len()
            invariant
                i <= self.rows.len(),
                members@.no_duplicates(),
                forall|m: i64|
                    members@.contains(m) <==> self.rows@.take(i as int).contains((owner, m)),
            decreases self.rows.len() - i,
        {
            let row = self.rows[i];
            let ghost before = members@;
            let mut fresh = row.0 == owner;
            if fresh {
                let mut k: usize = 0;
                while k < members.len()
                    invariant
                        k <= members.len(),
                        fresh == (forall|j: int| 0 <= j < k ==> members[j] != row.1),
                    decreases members.len() - k,
                {
                    if members[k] == row.1 {
                        fresh = false;
                    }
                    k = k + 1;
                }
            }
            if fresh {
                members.push(row.1);
            }
            proof {
                assert(self.rows@.take(i + 1) =~= self.rows@.take(i as int).push(row));
                assert forall|m: i64|
                    members@.contains(m) <==> self.rows@.take(i + 1).contains((owner, m)) by {
                    lemma_push_contains(self.rows@.take(i as int), row, (owner, m));
                    if fresh {
                        lemma_push_contains(before, row.1, m);
                    }
                }
            }
            i = i + 1;
        }
        assert(self.rows@.take(i as int) =~= self.rows@);
        assert(members@.to_set() =~= current_set(self@.committed, owner));
        members
    }

    /// Performs `cmd` and tells whether it succeeded.
    pub fn execute(&mut self, cmd: TxCommand) -> (ok: bool)
        ensures
            (final(self)@, ok) == apply(old(self)@, cmd),
    {
        match cmd {
            TxCommand::Begin => {
                if self.draft.is_some() {
                    return false;
                }
                self.draft = Some(copy_rows(&self.rows));
                true
            },
            TxCommand::DeleteOwned(owner) => {
                match self.draft.take() {
                    Some(rows) => {
                        self.draft = Some(without_owner(&rows, owner));
                        true
                    },
                    None => false,
                }
            },
            TxCommand::Insert(owner, member) => {
                match self.draft.take() {
                    Some(rows) => {
                        let mut rows = rows;
                        let ghost before = rows@;
                        let present = holds(&rows, owner, member);
                        if !present {
                            rows.push((owner, member));
                            proof {
                                assert forall|p: (i64, i64)|
                                    pairs_of(rows@).contains(p) <==> pairs_of(before).insert(
                                        (owner, member),
                                    ).contains(p) by {
                                    lemma_push_contains(before, (owner, member), p);
                                }
                                assert(pairs_of(rows@) =~= pairs_of(before).insert(
                                    (owner, member),
                                ));
                            }
                        }
                        self.draft = Some(rows);
                        !present
                    },
                    None => false,
                }
            },
            TxCommand::Commit => {
                match self.draft.take() {
                    Some(rows) => {
                        self.rows = rows;
                        true
                    },
                    None => false,
                }
            },
            TxCommand::Rollback => {
                self.draft = None;
                true
            },
        }
    }
}

/// What a command does to the table where it may also fail for a reason of
/// its own (`fault`): then it changes nothing.
pub open spec fn apply_or_fail(table: TableState, cmd: TxCommand, fault: bool) -> (TableState, bool) {
    if fault {
        (table, false)
    } else {
        apply(table, cmd)
    }
}

/// One step of a replacement: the next command is performed on the table,
/// and the replacement moves on by its result.
pub open spec fn step(
    stage: Stage,
    table: TableState,
    owner: i64,
    members: Seq<i64>,
    fault: bool,
) -> (Stage, TableState) {
    match command_at(stage, owner, members) {
        Some(cmd) => (
            next_stage(stage, apply_or_fail(table, cmd, fault).1, members.len() as int),
            apply_or_fail(table, cmd, fault).0,
        ),
        None => (stage, table),
    }
}

/// Where a replacement and the table stand after `steps` steps from the
/// beginning, where `faults` tells at which steps the command fails for a
/// reason of its own.
pub open spec fn state_after(
    table: TableState,
    owner: i64,
    members: Seq<i64>,
    faults: spec_fn(nat) -> bool,
    steps: nat,
) -> (Stage, TableState)
    decreases steps,
{
    if steps == 0 {
        (Stage::Begin, table)
    } else {
        let (stage, before) = state_after(table, owner, members, faults, (steps - 1) as nat);
        step(stage, before, owner, members, faults((steps - 1) as nat))
    }
}

/// No command fails for a reason of its own.
pub open spec fn no_faults() -> spec_fn(nat) -> bool {
    |i: nat| false
}

/// How many steps a replacement at `stage` still takes at most.
pub open spec fn steps_left(stage: Stage, count: int) -> int {
    match stage {
        Stage::Begin => count + 4,
        Stage::Delete => count + 3,
        Stage::Insert(k) => count - k + 2,
        Stage::Commit => 2,
        Stage::Rollback(_) => 1,
        Stage::Done(_) => 0,
    }
}

/// What holds of a replacement in progress on a table that held `initial`
/// when it began.
pub open spec fn in_progress(
    initial: Set<(i64, i64)>,
    owner: i64,
    members: Seq<i64>,
    stage: Stage,
    table: TableState,
) -> bool {
    match stage {
        Stage::Begin => table.committed == initial,
        Stage::Delete => table.committed == initial && table.working == Some(initial),
        Stage::Insert(k) => {
            &&& k < members.len()
            &&& table.committed == initial
            &&& table.working == Some(replaced(initial, owner, members.take(k as int)))
            &&& members.take(k as int).no_duplicates()
        },
        Stage::Commit => {
            &&& table.committed == initial
            &&& table.working == Some(replaced(initial, owner, members))
            &&& members.no_duplicates()
        },
        Stage::Rollback(_) => table.committed == initial,
        Stage::Done(Ok(_)) => {
            &&& table.committed == replaced(initial, owner, members)
            &&& table.working is None
            &&& members.no_duplicates()
        },
        Stage::Done(Err(_)) => table.committed == initial,
    }
}

/// The submitted members up to position `k`, with the one at `k`.
proof fn lemma_take_one_more(initial: Set<(i64, i64)>, owner: i64, members: Seq<i64>, k: int)
    requires
        0 <= k < members.len(),
    ensures
        replaced(initial, owner, members.take(k + 1)) == replaced(
            initial,
            owner,
            members.take(k),
        ).insert((owner, members[k])),
        replaced(initial, owner, members.take(k)).contains((owner, members[k])) <==> members.take(
            k,
        ).contains(members[k]),
        members.take(k).no_duplicates() && !members.take(k).contains(members[k])
            ==> members.take(k + 1).no_duplicates(),
        members.take(k).contains(members[k]) ==> !members.no_duplicates(),
{
    let shorter = members.take(k);
    let longer = members.take(k + 1);
    assert(longer =~= shorter.push(members[k]));
    assert forall|p: (i64, i64)|
        replaced(initial, owner, longer).contains(p) <==> replaced(initial, owner, shorter).insert(
            (owner, members[k]),
        ).contains(p) by {
        lemma_push_contains(shorter, members[k], p.1);
    }
    assert(replaced(initial, owner, longer) =~= replaced(initial, owner, shorter).insert(
        (owner, members[k]),
    ));
    if shorter.contains(members[k]) {
        let j = choose|j: int| 0 <= j < shorter.len() && shorter[j] == members[k];
        assert(members[j] == members[k] && j != k);
    }
}

/// One step keeps what holds of a replacement in progress, and brings it
/// nearer to its end.
proof fn lemma_step(
    initial: Set<(i64, i64)>,
    owner: i64,
    members: Seq<i64>,
    stage: Stage,
    table: TableState,
    fault: bool,
)
    requires
        members.len() <= usize::MAX,
        in_progress(initial, owner, members, stage, table),
    ensures
        in_progress(
            initial,
            owner,
            members,
            step(stage, table, owner, members, fault).0,
            step(stage, table, owner, members, fault).1,
        ),
        stage_wf(step(stage, table, owner, members, fault).0, members.len() as int),
        !(stage is Done) ==> steps_left(
            step(stage, table, owner, members, fault).0,
            members.len() as int,
        ) < steps_left(stage, members.len() as int),
        stage is Done ==> step(stage, table, owner, members, fault) == (stage, table),
{
    match stage {
        Stage::Delete => {
            assert(members.take(0) =~= Seq::<i64>::empty());
            assert(cleared(initial, owner) =~= replaced(initial, owner, members.take(0)));
            assert(members.take(members.len() as int) =~= members);
        },
        Stage::Insert(k) => {
            lemma_take_one_more(initial, owner, members, k as int);
            assert(members.take(members.len() as int) =~= members);
        },
        _ => {},
    }
}

/// At every step of a replacement, the table that readers see holds what it
/// held at the beginning, or, once the replacement has gone through, the
/// same with the owner's associations replaced: never fewer pairs than
/// either, and never a mixture. This holds whichever commands fail, and
/// whether or not a transaction was open at the beginning.
pub proof fn lemma_replacement_is_atomic(
    table: TableState,
    owner: i64,
    members: Seq<i64>,
    faults: spec_fn(nat) -> bool,
    steps: nat,
)
    requires
        members.len() <= usize::MAX,
    ensures
        ({
            let (stage, now) = state_after(table, owner, members, faults, steps);
            &&& in_progress(table.committed, owner, members, stage, now)
            &&& stage_wf(stage, members.len() as int)
            &&& if stage == Stage::Done(Ok(())) {
                now.committed == replaced(table.committed, owner, members)
            } else {
                now.committed == table.committed
            }
            &&& steps_left(stage, members.len() as int) <= members.len() + 4 - steps
                || stage is Done
        }),
    decreases steps,
{
    if steps > 0 {
        lemma_replacement_is_atomic(table, owner, members, faults, (steps - 1) as nat);
        let (stage, before) = state_after(table, owner, members, faults, (steps - 1) as nat);
        lemma_step(table.committed, owner, members, stage, before, faults((steps - 1) as nat));
    }
}

/// A replacement ends: after four steps and one for each member it is over,
/// with the table as it was or with the owner's associations replaced.
pub proof fn lemma_replacement_ends(
    table: TableState,
    owner: i64,
    members: Seq<i64>,
    faults: spec_fn(nat) -> bool,
)
    requires
        members.len() <= usize::MAX,
    ensures
        state_after(table, owner, members, faults, members.len() + 4).0 is Done,
{
    lemma_replacement_is_atomic(table, owner, members, faults, members.len() + 4);
}

/// What holds of a replacement in progress where no command fails for a
/// reason of its own, on a table that was `initial` when it began.
pub open spec fn on_course(
    initial: TableState,
    owner: i64,
    members: Seq<i64>,
    stage: Stage,
    table: TableState,
) -> bool {
    &&& in_progress(initial.committed, owner, members, stage, table)
    &&& match stage {
        Stage::Begin => table == initial,
        Stage::Rollback(failure) => {
            &&& initial.working is None
            &&& failure == TransactionFailure::Insert
            &&& !members.no_duplicates()
        },
        Stage::Done(Err(failure)) => if initial.working is None {
            &&& failure == TransactionFailure::Insert
            &&& !members.no_duplicates()
            &&& table == initial
        } else {
            failure == TransactionFailure::Begin && table == initial
        },
        _ => initial.working is None,
    }
}

/// One step without a fault keeps a replacement on course.
proof fn lemma_step_on_course(
    initial: TableState,
    owner: i64,
    members: Seq<i64>,
    stage: Stage,
    table: TableState,
)
    requires
        members.len() <= usize::MAX,
        on_course(initial, owner, members, stage, table),
    ensures
        on_course(
            initial,
            owner,
            members,
            step(stage, table, owner, members, false).0,
            step(stage, table, owner, members, false).1,
        ),
{
    lemma_step(initial.committed, owner, members, stage, table, false);
    if let Stage::Insert(k) = stage {
        lemma_take_one_more(initial.committed, owner, members, k as int);
    }
}

/// Where every command does what the table makes of it, a replacement on
/// a table with no transaction open goes through if and only if no member
/// was submitted twice. It then leaves the owner with exactly the
/// submitted members and every other owner's associations as they were;
/// an empty list leaves the owner with none. Otherwise the table is in the
/// end what it was at the beginning.
pub proof fn lemma_replacement_outcome(
    table: TableState,
    owner: i64,
    members: Seq<i64>,
    steps: nat,
)
    requires
        members.len() <= usize::MAX,
        table.working is None,
        state_after(table, owner, members, no_faults(), steps).0 is Done,
    ensures
        members.no_duplicates() ==> {
            let end = state_after(table, owner, members, no_faults(), steps);
            &&& end.0 == Stage::Done(Ok(()))
            &&& end.1.working is None
            &&& end.1.committed == replaced(table.committed, owner, members)
            &&& current_set(end.1.committed, owner) == members.to_set()
            &&& forall|other: i64|
                other != owner ==> current_set(end.1.committed, other) == current_set(
                    table.committed,
                    other,
                )
        },
        !members.no_duplicates() ==> {
            let end = state_after(table, owner, members, no_faults(), steps);
            end.0 == Stage::Done(Err(TransactionFailure::Insert)) && end.1 == table
        },
{
    lemma_run_on_course(table, owner, members, steps);
    let end = state_after(table, owner, members, no_faults(), steps);
    assert(on_course(table, owner, members, end.0, end.1));
    if members.no_duplicates() {
        if let Stage::Done(Ok(unit)) = end.0 {
            assert(unit == ());
        }
        assert(current_set(end.1.committed, owner) =~= members.to_set());
        assert forall|other: i64| other != owner implies current_set(end.1.committed, other)
            == current_set(table.committed, other) by {
            assert(current_set(end.1.committed, other) =~= current_set(table.committed, other));
        }
    }
}

/// A run without faults stays on course.
proof fn lemma_run_on_course(table: TableState, owner: i64, members: Seq<i64>, steps: nat)
    requires
        members.len() <= usize::MAX,
    ensures
        on_course(
            table,
            owner,
            members,
            state_after(table, owner, members, no_faults(), steps).0,
            state_after(table, owner, members, no_faults(), steps).1,
        ),
    decreases steps,
{
    if steps > 0 {
        lemma_run_on_course(table, owner, members, (steps - 1) as nat);
        let (stage, before) = state_after(table, owner, members, no_faults(), (steps - 1) as nat);
        lemma_step_on_course(table, owner, members, stage, before);
    }
}

/// Replaces the associations of `owner` in `table` by those with
/// `members`, by the protocol: all of them or none. It goes through unless
/// a member was submitted twice or a transaction is already open.
pub fn reassign(table: &mut Associations, relation: Relation, owner: i64, members: Vec<i64>) -> (r:
    Result<(), TransactionFailure>)
    ensures
        r is Ok <==> old(table)@.working is None && members@.no_duplicates(),
        r is Ok ==> final(table)@ == (TableState {
            committed: replaced(old(table)@.committed, owner, members@),
            working: None,
        }),
        r is Err ==> final(table)@ == old(table)@,
        r matches Err(failure) ==> failure == (if old(table)@.working is None {
            TransactionFailure::Insert
        } else {
            TransactionFailure::Begin
        }),
{
    let ghost initial = table@;
    let ghost submitted = members@;
    let mut run = Reassignment::new(relation, owner, members);
    let mut next = run.command();
    while next.is_some()
        invariant
            run.wf(),
            run.owner == owner,
            run.members@ == submitted,
            next == command_at(run.stage, owner, submitted),
            on_course(initial, owner, submitted, run.stage, table@),
        decreases steps_left(run.stage, submitted.len() as int),
    {
        let cmd = next.unwrap();
        proof {
            lemma_step(initial.committed, owner, submitted, run.stage, table@, false);
            lemma_step_on_course(initial, owner, submitted, run.stage, table@);
        }
        let ok = table.execute(cmd);
        run.advance(ok);
        next = run.command();
    }
    match run.stage {
        Stage::Done(result) => result,
        _ => Err(TransactionFailure::Begin),
    }
}

} // verus!
