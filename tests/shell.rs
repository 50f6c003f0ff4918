use ripparallel::shell::{choose_shell, end_bytes_from, generate_end_bytes, supervisor_script};

#[test]
fn markers_are_alphanumeric_and_fresh() {
    let a = generate_end_bytes();
    let b = generate_end_bytes();
    assert!(a.iter().all(|b| b.is_ascii_alphanumeric()));
    assert!(b.iter().all(|b| b.is_ascii_alphanumeric()));
    assert_ne!(a, b);
}

#[test]
fn script_prints_the_marker_on_both_streams() {
    let marker = *b"abcdEFGH01234567";
    assert_eq!(
        supervisor_script(&marker),
        "while true; do read line; eval \"$line\"; printf abcdEFGH01234567; printf abcdEFGH01234567 >&2; done"
    );
}

#[test]
fn shell_choice_prefers_configuration_then_environment() {
    assert_eq!(choose_shell(Some("zsh".to_string()), Some("bash".to_string())), "zsh");
    assert_eq!(choose_shell(None, Some("bash".to_string())), "bash");
    assert_eq!(choose_shell(None, None), "dash");
}

#[test]
fn marker_copies_the_sample() {
    let sample: Vec<u8> = b"0123456789abcdef".to_vec();
    assert_eq!(&end_bytes_from(&sample), b"0123456789abcdef");
}
