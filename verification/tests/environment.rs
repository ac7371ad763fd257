use foreman::env::EnvVars;

#[test]
fn new_env_is_empty() {
    let e = EnvVars::new();
    assert!(e.inner().is_empty());
    assert!(e.to_strings().is_empty());
}

#[test]
fn renders_name_value_lines_in_order() {
    let mut e = EnvVars::new();
    e.push("NODE_ENV".to_string(), "development".to_string());
    e.push("PORT".to_string(), "8080".to_string());
    assert_eq!(
        e.to_strings(),
        vec!["NODE_ENV=development".to_string(), "PORT=8080".to_string()]
    );
}

#[test]
fn merge_appends_so_merged_in_pairs_win() {
    let mut base = EnvVars::new();
    base.push("A".to_string(), "1".to_string());
    base.push("B".to_string(), "2".to_string());
    let mut over = EnvVars::new();
    over.push("A".to_string(), "9".to_string());
    base.merge(over);
    // The overriding pair comes later, so a consumer that takes the last
    // binding sees A=9.
    assert_eq!(
        base.to_strings(),
        vec!["A=1".to_string(), "B=2".to_string(), "A=9".to_string()]
    );
}

#[test]
fn merge_clone_leaves_both_operands_alone() {
    let mut a = EnvVars::new();
    a.push("X".to_string(), "1".to_string());
    let mut b = EnvVars::new();
    b.push("Y".to_string(), "2".to_string());
    let c = a.merge_clone(&b);
    assert_eq!(c.to_strings(), vec!["X=1".to_string(), "Y=2".to_string()]);
    assert_eq!(a.to_strings(), vec!["X=1".to_string()]);
    assert_eq!(b.to_strings(), vec!["Y=2".to_string()]);
}

#[test]
fn inner_mut_edits_the_pairs_directly() {
    let mut e = EnvVars::new();
    e.inner_mut().push(("HOME".to_string(), "/tmp".to_string()));
    assert_eq!(e.inner().len(), 1);
    assert_eq!(e.to_strings(), vec!["HOME=/tmp".to_string()]);
}

#[test]
fn clone_is_a_value_copy() {
    let mut e = EnvVars::new();
    e.push("K".to_string(), "v".to_string());
    let c = e.clone();
    e.push("L".to_string(), "w".to_string());
    assert_eq!(c.to_strings(), vec!["K=v".to_string()]);
}
