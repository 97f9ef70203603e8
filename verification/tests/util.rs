use arena_core::util::random_string;

#[test]
fn random_string_is_sixteen_alphanumerics() {
    for _ in 0..8 {
        let s = random_string();
        assert_eq!(s.chars().count(), 16);
        assert!(s.chars().all(|c| c.is_ascii_alphanumeric()));
    }
}
