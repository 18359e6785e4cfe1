use server_core::supervisor::ThreadManager;

#[test]
fn shutdown_leaves_no_task_running_in_the_subtree() {
    let mut tm = ThreadManager::new();
    let root = 0usize;
    let child = tm.child(root);
    let grandchild = tm.child(child);
    let _ = tm.spawn(root);
    let _ = tm.spawn(child);
    let _ = tm.spawn(child);
    let _ = tm.spawn_loop(grandchild);
    assert_eq!(tm.running_in_subtree(root), 4);

    tm.shutdown(root);
    assert_eq!(tm.running_in_subtree(root), 0);
    assert!(tm.is_cancelled(root));
    assert!(tm.is_cancelled(child));
    assert!(tm.is_cancelled(grandchild));
}

#[test]
fn shutdown_of_a_child_leaves_the_rest_of_the_tree_alone() {
    let mut tm = ThreadManager::new();
    let root = 0usize;
    let left = tm.child(root);
    let right = tm.child(root);
    let _ = tm.spawn(left);
    let _ = tm.spawn(right);

    tm.shutdown(left);
    assert!(tm.is_cancelled(left));
    assert!(!tm.is_cancelled(root));
    assert!(!tm.is_cancelled(right));
    assert_eq!(tm.running_in_subtree(left), 0);
    assert_eq!(tm.running_in_subtree(right), 1);
}

#[test]
fn child_registered_after_shutdown_is_born_cancelled() {
    let mut tm = ThreadManager::new();
    let root = 0usize;
    tm.shutdown(root);
    let late = tm.child(root);
    assert!(tm.is_cancelled(late));
    // A task spawned under it is abandoned at once.
    let _ = tm.spawn(late);
    assert_eq!(tm.running_in_subtree(late), 0);
}

#[test]
fn shutdown_twice_is_safe_and_changes_nothing() {
    let mut tm = ThreadManager::new();
    let root = 0usize;
    let child = tm.child(root);
    let _ = tm.spawn(child);
    tm.shutdown(root);
    let before = tm.clone();
    tm.shutdown(root);
    assert_eq!(tm, before);
}

#[test]
fn abort_cancels_and_joins_like_shutdown() {
    let mut tm = ThreadManager::new();
    let root = 0usize;
    let child = tm.child(root);
    let _ = tm.spawn(child);
    tm.abort_async(root);
    assert_eq!(tm.running_in_subtree(root), 0);
    assert!(tm.is_cancelled(child));
}

#[test]
fn cancelling_a_child_does_not_affect_the_parent() {
    let mut tm = ThreadManager::new();
    let root = 0usize;
    let child = tm.child(root);
    tm.shutdown(child);
    assert!(tm.is_cancelled(child));
    assert!(!tm.is_cancelled(root));
}
