use tradingview::session::session_id_from;

#[test]
fn session_id_maps_each_draw_to_its_character() {
    let draws: Vec<usize> = (0..12).collect();
    assert_eq!(session_id_from("xs", &draws), "xs_ABCDEFGHIJKL");
    let draws: Vec<usize> = vec![61, 0, 26, 52, 25, 51, 60, 1, 27, 53, 33, 7];
    assert_eq!(session_id_from("cs", &draws), "cs_9Aa0Zz8Bb1hH");
}
