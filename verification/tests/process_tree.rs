use inkvoice_shell::process_tree::descendants;

fn entry(pid: u32, parent: u32, name: &str) -> (u32, u32, String) {
    (pid, parent, name.to_string())
}

#[test]
fn descendants_walks_every_generation() {
    let procs = vec![
        entry(10, 1, "WindowsTerminal.exe"),
        entry(11, 10, "pwsh.exe"),
        entry(12, 11, "nvim.exe"),
        entry(13, 2, "explorer.exe"),
        entry(14, 10, "OpenConsole.exe"),
    ];
    let found = descendants(1, &procs);
    assert_eq!(
        found,
        vec![
            (10, "WindowsTerminal.exe".to_string()),
            (11, "pwsh.exe".to_string()),
            (14, "OpenConsole.exe".to_string()),
            (12, "nvim.exe".to_string()),
        ]
    );
}

#[test]
fn descendants_of_a_leaf_is_empty() {
    let procs = vec![entry(10, 1, "a.exe"), entry(11, 10, "b.exe")];
    assert!(descendants(11, &procs).is_empty());
    assert!(descendants(99, &[]).is_empty());
}

#[test]
fn descendants_leaves_out_unrelated_processes() {
    let procs = vec![entry(5, 4, "x.exe"), entry(6, 3, "y.exe"), entry(7, 5, "z.exe")];
    let found = descendants(4, &procs);
    assert_eq!(found, vec![(5, "x.exe".to_string()), (7, "z.exe".to_string())]);
    assert!(!found.iter().any(|(pid, _)| *pid == 6));
}

#[test]
fn descendants_lists_each_process_once() {
    let procs = vec![entry(2, 1, "a"), entry(3, 2, "b"), entry(4, 9, "c")];
    assert_eq!(descendants(1, &procs), vec![(2, "a".to_string()), (3, "b".to_string())]);
}
