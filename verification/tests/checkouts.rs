use freshgit::checkouts::{checkout, find_checkouts, WalkEntry};
use freshgit::work::WorkItem;

fn fetch(checkout: &str) -> WorkItem {
    WorkItem::Fetch { local_checkout_path: checkout.to_string() }
}

#[test]
fn a_directory_named_git_marks_the_checkout_that_holds_it() {
    let entry = WalkEntry::Found { path: "/srv/src/repo/.git".to_string(), is_dir: true };
    assert_eq!(checkout(&entry), Some(fetch("/srv/src/repo")));
}

#[test]
fn other_entries_mark_no_checkout() {
    let file = WalkEntry::Found { path: "/srv/src/repo/.git".to_string(), is_dir: false };
    assert_eq!(checkout(&file), None);
    let other = WalkEntry::Found { path: "/srv/src/repo/src".to_string(), is_dir: true };
    assert_eq!(checkout(&other), None);
    let inside = WalkEntry::Found { path: "/srv/src/repo/.git/refs".to_string(), is_dir: true };
    assert_eq!(checkout(&inside), None);
    assert_eq!(checkout(&WalkEntry::Failed), None);
}

#[test]
fn checkouts_come_in_the_order_of_the_walk() {
    let walk = vec![
        WalkEntry::Found { path: "root".to_string(), is_dir: true },
        WalkEntry::Found { path: "root/b".to_string(), is_dir: true },
        WalkEntry::Found { path: "root/b/.git".to_string(), is_dir: true },
        WalkEntry::Found { path: "root/b/.git/HEAD".to_string(), is_dir: false },
        WalkEntry::Failed,
        WalkEntry::Found { path: "root/a/deep/.git".to_string(), is_dir: true },
        WalkEntry::Found { path: "root/c/.git".to_string(), is_dir: false },
    ];
    assert_eq!(find_checkouts(&walk), vec![fetch("root/b"), fetch("root/a/deep")]);
    assert_eq!(find_checkouts(&Vec::new()), Vec::new());
}

#[test]
fn a_walk_without_any_checkout_gives_no_item() {
    let walk = vec![
        WalkEntry::Found { path: "root".to_string(), is_dir: true },
        WalkEntry::Failed,
    ];
    assert_eq!(find_checkouts(&walk), Vec::new());
}
