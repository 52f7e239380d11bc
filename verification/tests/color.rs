use suumo_traveltime::random_color;

#[test]
fn random_color_is_a_hex_triplet() {
    let color = random_color();
    assert_eq!(color.len(), 7);
    assert!(color.starts_with('#'));
    assert!(color[1..].chars().all(|c| c.is_ascii_digit() || ('a'..='f').contains(&c)));
}
