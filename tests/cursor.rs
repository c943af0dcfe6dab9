use journal_tail::cursor::{save_plan, CursorOp};

fn expect_plan(path: &str, token: &str, staging: &str) {
    let plan = save_plan(path, token);
    assert_eq!(plan.len(), 2);
    match &plan[0] {
        CursorOp::Write { path: p, contents } => {
            assert_eq!(p, staging);
            assert_eq!(contents, token);
        }
        other => panic!("unexpected first step {:?}", other),
    }
    match &plan[1] {
        CursorOp::Rename { from, to } => {
            assert_eq!(from, staging);
            assert_eq!(to, path);
        }
        other => panic!("unexpected second step {:?}", other),
    }
}

#[test]
fn save_writes_staging_then_renames() {
    expect_plan("/var/lib/tail/cursor", "s=abc;i=1", "/var/lib/tail/cursor.~");
}

#[test]
fn staging_replaces_the_extension() {
    expect_plan("state/cursor.txt", "t", "state/cursor.~");
}

#[test]
fn staging_of_a_tilde_path_appends_a_tilde() {
    expect_plan("state/c.~", "t", "state/c.~~");
}
