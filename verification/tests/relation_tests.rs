use backoffice::relation::{
    reassign, Associations, Reassignment, Relation, RolePermissions, Stage, TransactionFailure,
    TxCommand, UserRoles, INTERNAL_SERVER_ERROR, NO_CONTENT,
};

fn update_role_permissions(role_id: i64, permission_ids: Vec<i64>) -> Reassignment {
    backoffice::relation::update_role_permissions(role_id, RolePermissions { permission_ids })
}

fn update_user_roles(user_id: i64, role_ids: Vec<i64>) -> Reassignment {
    backoffice::relation::update_user_roles(user_id, UserRoles { role_ids })
}

fn sorted(mut v: Vec<i64>) -> Vec<i64> {
    v.sort();
    v
}

fn role_seven() -> Associations {
    Associations::from_rows(vec![(7, 1), (7, 4), (8, 1), (8, 2)])
}

fn commands(run: &mut Reassignment, results: &[bool]) -> Vec<TxCommand> {
    let mut seen = Vec::new();
    let mut k = 0;
    while let Some(cmd) = run.command() {
        seen.push(cmd);
        let ok = results.get(k).copied().unwrap_or(true);
        run.advance(ok);
        k += 1;
    }
    seen
}

#[test]
fn replacement_commands_in_order() {
    let mut run = update_role_permissions(7, vec![1, 2, 3]);
    assert_eq!(run.stage, Stage::Begin);
    assert_eq!(run.outcome(), None);
    assert_eq!(run.response_status(), None);
    let seen = commands(&mut run, &[]);
    assert_eq!(
        seen,
        [
            TxCommand::Begin,
            TxCommand::DeleteOwned(7),
            TxCommand::Insert(7, 1),
            TxCommand::Insert(7, 2),
            TxCommand::Insert(7, 3),
            TxCommand::Commit,
        ]
    );
    assert_eq!(run.stage, Stage::Done(Ok(())));
    assert_eq!(run.outcome(), Some(Ok(())));
    assert_eq!(run.response_status(), Some(NO_CONTENT));
    assert_eq!(run.response_status(), Some(204));
}

#[test]
fn empty_replacement_deletes_and_commits() {
    let mut run = update_user_roles(3, vec![]);
    let seen = commands(&mut run, &[]);
    assert_eq!(seen, [TxCommand::Begin, TxCommand::DeleteOwned(3), TxCommand::Commit]);
    assert_eq!(run.outcome(), Some(Ok(())));
}

#[test]
fn relation_and_owner_are_kept() {
    let run = update_role_permissions(7, vec![5]);
    assert_eq!(run.relation, Relation::RolePermissions);
    assert_eq!(run.owner, 7);
    assert_eq!(run.members, [5]);
    let run = update_user_roles(9, vec![1, 2]);
    assert_eq!(run.relation, Relation::UserRoles);
    assert_eq!(run.owner, 9);
    assert_eq!(run.members, [1, 2]);
}

#[test]
fn failed_begin_ends_without_rollback() {
    let mut run = update_role_permissions(7, vec![1]);
    let seen = commands(&mut run, &[false]);
    assert_eq!(seen, [TxCommand::Begin]);
    assert_eq!(run.outcome(), Some(Err(TransactionFailure::Begin)));
    assert_eq!(run.response_status(), Some(INTERNAL_SERVER_ERROR));
    assert_eq!(run.response_status(), Some(500));
}

#[test]
fn failed_delete_rolls_back() {
    let mut run = update_role_permissions(7, vec![1]);
    let seen = commands(&mut run, &[true, false]);
    assert_eq!(seen, [TxCommand::Begin, TxCommand::DeleteOwned(7), TxCommand::Rollback]);
    assert_eq!(run.outcome(), Some(Err(TransactionFailure::Delete)));
}

#[test]
fn failed_third_insert_of_four_rolls_back() {
    let mut run = update_role_permissions(7, vec![10, 11, 12, 13]);
    let seen = commands(&mut run, &[true, true, true, true, false]);
    assert_eq!(
        seen,
        [
            TxCommand::Begin,
            TxCommand::DeleteOwned(7),
            TxCommand::Insert(7, 10),
            TxCommand::Insert(7, 11),
            TxCommand::Insert(7, 12),
            TxCommand::Rollback,
        ]
    );
    assert_eq!(run.outcome(), Some(Err(TransactionFailure::Insert)));
    assert_eq!(run.response_status(), Some(500));
}

#[test]
fn failed_commit_rolls_back() {
    let mut run = update_user_roles(7, vec![1]);
    let seen = commands(&mut run, &[true, true, true, false]);
    assert_eq!(
        seen,
        [
            TxCommand::Begin,
            TxCommand::DeleteOwned(7),
            TxCommand::Insert(7, 1),
            TxCommand::Commit,
            TxCommand::Rollback,
        ]
    );
    assert_eq!(run.outcome(), Some(Err(TransactionFailure::Commit)));
}

#[test]
fn failed_rollback_still_ends_in_the_first_failure() {
    let mut run = update_user_roles(7, vec![1]);
    let seen = commands(&mut run, &[true, false, false]);
    assert_eq!(seen.len(), 3);
    assert_eq!(run.outcome(), Some(Err(TransactionFailure::Delete)));
}

#[test]
fn finished_replacement_stays_finished() {
    let mut run = update_user_roles(7, vec![]);
    commands(&mut run, &[]);
    run.advance(false);
    assert_eq!(run.outcome(), Some(Ok(())));
    run.advance(true);
    assert_eq!(run.command(), None);
    assert_eq!(run.outcome(), Some(Ok(())));
}

#[test]
fn replacement_sets_exactly_the_submitted_members() {
    let mut table = role_seven();
    assert_eq!(reassign(&mut table, Relation::RolePermissions, 7, vec![1, 2, 3]), Ok(()));
    assert_eq!(sorted(table.members_of(7)), [1, 2, 3]);
    assert_eq!(sorted(table.members_of(8)), [1, 2]);
    assert!(table.contains(7, 1));
    assert!(!table.contains(7, 4));
}

#[test]
fn replacement_by_nothing_clears_the_owner() {
    let mut table = role_seven();
    assert_eq!(reassign(&mut table, Relation::RolePermissions, 7, vec![]), Ok(()));
    assert!(table.members_of(7).is_empty());
    assert_eq!(sorted(table.members_of(8)), [1, 2]);
}

#[test]
fn replacement_for_an_owner_without_associations() {
    let mut table = role_seven();
    assert_eq!(reassign(&mut table, Relation::UserRoles, 9, vec![5, 6]), Ok(()));
    assert_eq!(sorted(table.members_of(9)), [5, 6]);
    assert_eq!(sorted(table.members_of(7)), [1, 4]);
    assert_eq!(reassign(&mut table, Relation::UserRoles, 10, vec![]), Ok(()));
    assert!(table.members_of(10).is_empty());
}

#[test]
fn duplicate_member_fails_and_changes_nothing() {
    let mut table = role_seven();
    assert_eq!(
        reassign(&mut table, Relation::RolePermissions, 7, vec![10, 11, 10, 12]),
        Err(TransactionFailure::Insert)
    );
    assert_eq!(sorted(table.members_of(7)), [1, 4]);
    assert_eq!(sorted(table.members_of(8)), [1, 2]);
    assert_eq!(reassign(&mut table, Relation::RolePermissions, 7, vec![10, 11, 12]), Ok(()));
    assert_eq!(sorted(table.members_of(7)), [10, 11, 12]);
}

#[test]
fn resubmitting_the_current_members_succeeds() {
    let mut table = role_seven();
    assert_eq!(reassign(&mut table, Relation::RolePermissions, 7, vec![4, 1]), Ok(()));
    assert_eq!(sorted(table.members_of(7)), [1, 4]);
}

#[test]
fn replacement_inside_an_open_transaction_fails_at_begin() {
    let mut table = role_seven();
    assert!(table.execute(TxCommand::Begin));
    assert_eq!(
        reassign(&mut table, Relation::RolePermissions, 7, vec![9]),
        Err(TransactionFailure::Begin)
    );
    assert_eq!(sorted(table.members_of(7)), [1, 4]);
    assert!(table.execute(TxCommand::Insert(7, 9)));
    assert!(table.execute(TxCommand::Commit));
    assert_eq!(sorted(table.members_of(7)), [1, 4, 9]);
}

#[test]
fn readers_see_the_old_or_the_new_membership_only() {
    let mut table = role_seven();
    let mut run = update_role_permissions(7, vec![1, 2, 3]);
    let mut observed = Vec::new();
    while let Some(cmd) = run.command() {
        observed.push(sorted(table.members_of(7)));
        let ok = table.execute(cmd);
        run.advance(ok);
    }
    observed.push(sorted(table.members_of(7)));
    assert_eq!(run.outcome(), Some(Ok(())));
    assert_eq!(observed.len(), 7);
    for seen in &observed[..6] {
        assert_eq!(seen, &[1, 4]);
    }
    assert_eq!(observed[6], [1, 2, 3]);
}

#[test]
fn failure_midway_leaves_the_old_membership_at_every_moment() {
    let mut table = role_seven();
    let mut run = update_role_permissions(7, vec![10, 11, 10, 12]);
    let mut executed = Vec::new();
    while let Some(cmd) = run.command() {
        assert_eq!(sorted(table.members_of(7)), [1, 4]);
        let ok = table.execute(cmd);
        executed.push((cmd, ok));
        run.advance(ok);
    }
    assert_eq!(sorted(table.members_of(7)), [1, 4]);
    assert_eq!(run.outcome(), Some(Err(TransactionFailure::Insert)));
    assert_eq!(executed[4], (TxCommand::Insert(7, 10), false));
    assert_eq!(executed[5], (TxCommand::Rollback, true));
    assert_eq!(executed.len(), 6);
    assert!(table.execute(TxCommand::Begin));
}

#[test]
fn table_commands_outside_a_transaction_fail() {
    let mut table = role_seven();
    assert!(!table.execute(TxCommand::DeleteOwned(7)));
    assert!(!table.execute(TxCommand::Insert(7, 9)));
    assert!(!table.execute(TxCommand::Commit));
    assert!(table.execute(TxCommand::Rollback));
    assert_eq!(sorted(table.members_of(7)), [1, 4]);
}

#[test]
fn table_keeps_pairs_unique() {
    let mut table = role_seven();
    assert!(table.execute(TxCommand::Begin));
    assert!(!table.execute(TxCommand::Begin));
    assert!(!table.execute(TxCommand::Insert(7, 1)));
    assert!(table.execute(TxCommand::Insert(7, 2)));
    assert!(!table.execute(TxCommand::Insert(7, 2)));
    assert!(table.execute(TxCommand::Insert(9, 2)));
    assert!(!table.contains(7, 2));
    assert!(table.execute(TxCommand::Commit));
    assert!(table.contains(7, 2));
    assert!(table.contains(9, 2));
}

#[test]
fn rollback_discards_the_transaction() {
    let mut table = role_seven();
    assert!(table.execute(TxCommand::Begin));
    assert!(table.execute(TxCommand::DeleteOwned(7)));
    assert!(table.execute(TxCommand::Insert(7, 5)));
    assert!(table.execute(TxCommand::Rollback));
    assert_eq!(sorted(table.members_of(7)), [1, 4]);
    assert!(!table.execute(TxCommand::Commit));
}

#[test]
fn statements_and_messages_of_each_relation() {
    let rp = Relation::RolePermissions;
    let ur = Relation::UserRoles;
    assert_eq!(rp.delete_statement(), "DELETE FROM role_permissions WHERE role_id = ?");
    assert_eq!(ur.delete_statement(), "DELETE FROM user_roles WHERE user_id = ?");
    assert_eq!(
        rp.insert_statement(),
        "INSERT INTO role_permissions (role_id, permission_id) VALUES (?, ?)"
    );
    assert_eq!(ur.insert_statement(), "INSERT INTO user_roles (user_id, role_id) VALUES (?, ?)");
    assert_eq!(rp.failure_message(TransactionFailure::Begin), "Failed to start transaction");
    assert_eq!(ur.failure_message(TransactionFailure::Begin), "Failed to start transaction");
    assert_eq!(
        rp.failure_message(TransactionFailure::Delete),
        "Failed to delete existing permissions"
    );
    assert_eq!(ur.failure_message(TransactionFailure::Delete), "Failed to delete existing roles");
    assert_eq!(rp.failure_message(TransactionFailure::Insert), "Failed to add new permissions");
    assert_eq!(ur.failure_message(TransactionFailure::Insert), "Failed to add new roles");
    assert_eq!(rp.failure_message(TransactionFailure::Commit), "Failed to commit transaction");
    assert_eq!(ur.failure_message(TransactionFailure::Commit), "Failed to commit transaction");
}

#[test]
fn members_are_listed_once() {
    let table = Associations::from_rows(vec![(7, 1), (7, 1), (7, 2), (8, 1)]);
    assert_eq!(sorted(table.members_of(7)), [1, 2]);
    assert!(table.members_of(6).is_empty());
}
