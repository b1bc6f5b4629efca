use cc_limit::wide::{tip_units, wide_string};

#[test]
fn ascii_text_gets_a_nul() {
    assert_eq!(wide_string("cc_limit"), vec![99, 99, 95, 108, 105, 109, 105, 116, 0]);
    assert_eq!(wide_string(""), vec![0]);
}

#[test]
fn characters_beyond_the_basic_plane_become_surrogate_pairs() {
    assert_eq!(wide_string("€"), vec![0x20AC, 0]);
    assert_eq!(wide_string("😀"), vec![0xD83D, 0xDE00, 0]);
    assert_eq!(wide_string("a·b"), "a·b".encode_utf16().chain(std::iter::once(0)).collect::<Vec<u16>>());
}

#[test]
fn short_tip_is_kept_whole() {
    assert_eq!(tip_units("cc_limit"), wide_string("cc_limit"));
}

#[test]
fn long_tip_is_cut() {
    let long = "x".repeat(200);
    let t = tip_units(&long);
    assert_eq!(t.len(), 127);
    assert!(t.iter().all(|&u| u == 'x' as u16));
    let exact = "y".repeat(126);
    assert_eq!(tip_units(&exact).len(), 127);
    assert_eq!(*tip_units(&exact).last().unwrap(), 0);
}
