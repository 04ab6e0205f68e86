use ultimate_ttt::is_tied;
use ultimate_ttt::is_won;
use ultimate_ttt::WinTable;

const LINES: [u16; 8] = [0o421, 0o124, 0o700, 0o070, 0o007, 0o111, 0o222, 0o444];

#[test]
fn table_agrees_with_direct_check_on_all_masks() {
    let table = WinTable::new();
    for mask in 0u16..512 {
        let direct = LINES.iter().any(|&w| mask & w == w);
        assert_eq!(table.is_won(mask), direct);
        assert_eq!(is_won(mask), direct);
    }
}

#[test]
fn each_line_pattern_is_won() {
    for &w in LINES.iter() {
        assert!(is_won(w));
    }
}

#[test]
fn masks_without_a_line_are_not_won() {
    assert!(!is_won(0));
    assert!(!is_won(0o123));
    assert!(!is_won(0o300));
    assert!(!is_won(0o356));
    assert!(is_won(0o770));
    assert!(is_won(0o767));
}

#[test]
fn tied_only_when_full() {
    assert!(is_tied(0o777));
    assert!(!is_tied(0o776));
    assert!(!is_tied(0));
}
