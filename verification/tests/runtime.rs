use bevy_spicy_networking::JoinHandle;

#[test]
fn abort_empties_the_task_handle() {
    let pool = bevy::tasks::TaskPool::new();
    let mut handle: Option<bevy::tasks::Task<()>> = Some(pool.spawn(async {}));
    handle.abort();
    assert!(handle.is_none());
}
