use toodles::title::{make_thread_title, rename_thread_title};

#[test]
fn title_counts_messages_after_the_first() {
    assert_eq!(make_thread_title("  fix \n bug ", 1), "fix bug");
    assert_eq!(make_thread_title("fix bug", 4), "fix bug · #4");
    assert_eq!(make_thread_title("", 0), "Сессия");
    assert_eq!(make_thread_title(" \t", 12), "Сессия · #12");
}

#[test]
fn title_is_cut() {
    let long = "д".repeat(200);
    assert_eq!(make_thread_title(&long, 1), "д".repeat(96));
    assert_eq!(make_thread_title(&long, 100), format!("{} · #100", "д".repeat(96)));
    assert!(make_thread_title(&long, usize::MAX).chars().count() <= 128);
}

#[test]
fn topic_is_renamed_at_first_and_then_every_so_often() {
    let renamed = |total, every| rename_thread_title("x", total, every, Some(1));
    assert_eq!(renamed(1, 4).as_deref(), Some("x"));
    assert_eq!(renamed(2, 4), None);
    assert_eq!(renamed(4, 4).as_deref(), Some("x · #4"));
    assert_eq!(renamed(8, 4).as_deref(), Some("x · #8"));
    assert_eq!(renamed(1, 0), None);
    assert_eq!(renamed(4, 0), None);
    assert_eq!(renamed(0, 4), None);
    assert_eq!(rename_thread_title("x", 1, 4, None), None);
}
