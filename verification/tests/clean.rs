use vagga_core::clean::{
    alive_roots, contains_pid, contains_string, is_hidden_name, join_all, parse_pid,
    select_by_name, select_dead_transients, select_everything, select_old_containers,
    select_tmp_folders, select_transients, transient_pid,
};

fn strings(items: &[&str]) -> Vec<String> {
    items.iter().map(|s| s.to_string()).collect()
}

#[test]
fn tmp_folder_classification() {
    let names = strings(&["foo.tmp", "foo", "foo.tmp2", "bar.tmp", ".tmp"]);
    let selected = select_tmp_folders(&names);
    assert_eq!(selected, strings(&["foo.tmp", "bar.tmp"]));
}

#[test]
fn tmp_folder_empty_listing() {
    let selected = select_tmp_folders(&Vec::new());
    assert!(selected.is_empty());
}

#[test]
fn old_containers_keep_linked_roots() {
    // roots = {a, b, c}, links point at {a, c} => selected = {b}.
    let roots = strings(&["a", "b", "c"]);
    let targets = strings(&[".roots/a", ".roots/c"]);
    let alive = alive_roots(&targets);
    assert_eq!(alive, strings(&["a", "c"]));
    let selected = select_old_containers(&roots, &alive);
    assert_eq!(selected, strings(&["b"]));
}

#[test]
fn old_containers_ignore_foreign_link_targets() {
    // A link pointing elsewhere keeps nothing alive.
    let alive = alive_roots(&strings(&["elsewhere/a", ".roots/b", "c"]));
    assert_eq!(alive, strings(&["b"]));
}

#[test]
fn old_containers_no_links_select_all() {
    let roots = strings(&["a", "b"]);
    let selected = select_old_containers(&roots, &Vec::new());
    assert_eq!(selected, roots);
}

#[test]
fn transient_liveness_selection() {
    // build.20240101.4242 is selected exactly when 4242 is not alive;
    // a non-numeric suffix is never selected.
    let names = strings(&["build.20240101.4242", "build.20240101.notanumber"]);
    let selected = select_transients(&names, &Vec::new());
    assert_eq!(selected, strings(&["build.20240101.4242"]));
    let selected = select_transients(&names, &vec![4242]);
    assert_eq!(selected, Vec::<String>::new());
}

#[test]
fn transient_probe_spares_the_living() {
    // This process is certainly alive; a pid above the kernel's maximum
    // certainly is not.
    let own = nix::unistd::getpid().as_raw();
    let ours = format!("run.20240101.{}", own);
    let names = vec![
        ours.clone(),
        "gone.20240101.999999999".to_string(),
        "odd.20240101.suffix".to_string(),
    ];
    let selected = select_dead_transients(&names);
    assert_eq!(selected, vec!["gone.20240101.999999999".to_string()]);
    assert!(!selected.contains(&ours));
}

#[test]
fn pid_parsing() {
    assert_eq!(parse_pid("4242"), Some(4242));
    assert_eq!(parse_pid("0"), Some(0));
    assert_eq!(parse_pid("2147483647"), Some(2147483647));
    assert_eq!(parse_pid("2147483648"), None);
    assert_eq!(parse_pid("184467440737095516170"), None);
    assert_eq!(parse_pid(""), None);
    assert_eq!(parse_pid("12a"), None);
    assert_eq!(parse_pid("-5"), None);
}

#[test]
fn pid_of_transient_names() {
    assert_eq!(transient_pid("build.20240101.4242"), Some(4242));
    assert_eq!(transient_pid("build.20240101.notanumber"), None);
    assert_eq!(transient_pid("plain"), None);
}

#[test]
fn by_name_resolves_under_roots() {
    let selected = select_by_name("/work/.vagga", &strings(&["base", "missing"]));
    assert_eq!(
        selected,
        strings(&["/work/.vagga/.roots/base", "/work/.vagga/.roots/missing"])
    );
}

#[test]
fn everything_is_the_state_dir() {
    let selected = select_everything(&"/work/.vagga".to_string());
    assert_eq!(selected, strings(&["/work/.vagga"]));
}

#[test]
fn join_all_keeps_order() {
    let joined = join_all("/work/.vagga/.transients", &strings(&["a", "b"]));
    assert_eq!(
        joined,
        strings(&["/work/.vagga/.transients/a", "/work/.vagga/.transients/b"])
    );
}

#[test]
fn hidden_names() {
    assert!(is_hidden_name(".roots"));
    assert!(!is_hidden_name("base"));
    assert!(!is_hidden_name(""));
}

#[test]
fn membership_helpers() {
    let v = strings(&["a", "b"]);
    assert!(contains_string(&v, &"a".to_string()));
    assert!(!contains_string(&v, &"c".to_string()));
    assert!(contains_pid(&vec![1, 2], 2));
    assert!(!contains_pid(&vec![1, 2], 3));
}
