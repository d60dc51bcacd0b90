use backoffice::models::permission::Permission;
use backoffice::user_permissions::{get_user_permissions, page_permissions, PAGE};

fn perm(id: i32, name: &str, category: &str) -> Permission {
    Permission {
        id,
        name: name.to_owned(),
        code: format!("code:{}", id),
        category: category.to_owned(),
        resource: None,
        action: None,
        description: None,
        parent_id: None,
        sort: 0,
        created_at: String::new(),
        updated_at: String::new(),
    }
}

fn ids(list: &[Permission]) -> Vec<i32> {
    list.iter().map(|p| p.id).collect()
}

fn names(list: &[Permission]) -> Vec<&str> {
    list.iter().map(|p| p.name.as_str()).collect()
}

#[test]
fn page_category() {
    assert_eq!(PAGE, "PAGE");
}

#[test]
fn no_roles_no_permissions() {
    let out = get_user_permissions(&vec![]);
    assert!(out.permissions.is_empty());
    assert!(out.menus.is_empty());
}

#[test]
fn permissions_are_sorted_by_id() {
    let given = vec![perm(5, "e", "API"), perm(2, "b", "API"), perm(9, "i", "API"), perm(-1, "z", "API")];
    let out = get_user_permissions(&given);
    assert_eq!(ids(&out.permissions), [-1, 2, 5, 9]);
}

#[test]
fn permission_of_two_roles_is_kept_once() {
    let given = vec![
        perm(3, "from first role", "PAGE"),
        perm(1, "one", "API"),
        perm(3, "from second role", "API"),
        perm(1, "one again", "PAGE"),
        perm(3, "from third role", "MENU"),
    ];
    let out = get_user_permissions(&given);
    assert_eq!(ids(&out.permissions), [1, 3]);
    assert_eq!(names(&out.permissions), ["one", "from first role"]);
    assert_eq!(names(&out.menus), ["from first role"]);
}

#[test]
fn menus_are_the_pages_in_order() {
    let given = vec![
        perm(4, "d", "PAGE"),
        perm(3, "c", "MENU"),
        perm(2, "b", "PAGE"),
        perm(1, "a", "API"),
        perm(5, "e", "page"),
        perm(6, "f", "PAGES"),
        perm(7, "g", ""),
    ];
    let out = get_user_permissions(&given);
    assert_eq!(ids(&out.permissions), [1, 2, 3, 4, 5, 6, 7]);
    assert_eq!(ids(&out.menus), [2, 4]);
}

#[test]
fn kept_permission_carries_all_fields() {
    let mut p = perm(1, "a", "PAGE");
    p.resource = Some("/r".to_owned());
    p.action = Some("GET".to_owned());
    p.description = Some("d".to_owned());
    p.parent_id = Some(7);
    p.sort = 3;
    p.created_at = "c".to_owned();
    p.updated_at = "u".to_owned();
    let out = get_user_permissions(&vec![p.clone()]);
    assert_eq!(format!("{:?}", out.permissions[0]), format!("{:?}", p));
    assert_eq!(format!("{:?}", out.menus[0]), format!("{:?}", p));
}

#[test]
fn page_permissions_filter_only() {
    let given = vec![perm(2, "b", "PAGE"), perm(1, "a", "PAGE"), perm(1, "a2", "PAGE"), perm(0, "x", "API")];
    assert_eq!(names(&page_permissions(&given)), ["b", "a", "a2"]);
}
