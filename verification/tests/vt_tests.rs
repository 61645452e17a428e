use neuterm::grid::TerminalGrid;
use neuterm::vt::osc_title;

fn csi(g: &mut TerminalGrid, params: &[u16], inter: &[u8], action: char) -> Option<Vec<u8>> {
    g.csi_dispatch(params, inter, action)
}

#[test]
fn device_attribute_replies() {
    let mut g = TerminalGrid::new(10, 5, 0);
    assert_eq!(csi(&mut g, &[], &[], 'c').unwrap(), b"\x1b[?62;1;2;6;22c".to_vec());
    assert_eq!(csi(&mut g, &[], b">", 'c').unwrap(), b"\x1b[>0;10;1c".to_vec());
    assert_eq!(csi(&mut g, &[5], &[], 'n').unwrap(), b"\x1b[0n".to_vec());
}

#[test]
fn cursor_position_report_is_one_based() {
    let mut g = TerminalGrid::new(10, 5, 0);
    assert!(csi(&mut g, &[3, 7], &[], 'H').is_none());
    assert_eq!(csi(&mut g, &[6], &[], 'n').unwrap(), b"\x1b[3;7R".to_vec());
}

#[test]
fn cursor_sequences_move() {
    let mut g = TerminalGrid::new(10, 5, 0);
    csi(&mut g, &[], &[], 'B');
    csi(&mut g, &[3], &[], 'C');
    assert_eq!((g.cursor_row(), g.cursor_col()), (1, 3));
    csi(&mut g, &[0], &[], 'D');
    assert_eq!(g.cursor_col(), 2);
    csi(&mut g, &[], &[], 'f');
    assert_eq!((g.cursor_row(), g.cursor_col()), (0, 0));
}

#[test]
fn unknown_sequences_do_nothing() {
    let mut g = TerminalGrid::new(10, 5, 0);
    assert!(csi(&mut g, &[1], &[], 'z').is_none());
    assert_eq!((g.cursor_row(), g.cursor_col()), (0, 0));
}

#[test]
fn control_bytes() {
    let mut g = TerminalGrid::new(10, 5, 0);
    g.put_char('x');
    assert!(!g.execute_control(b'\n'));
    assert_eq!(g.cursor_row(), 1);
    assert!(!g.execute_control(b'\r'));
    assert_eq!(g.cursor_col(), 0);
    assert!(g.execute_control(0x07));
    assert!(!g.execute_control(b'\t'));
    assert_eq!(g.cursor_col(), 8);
    assert!(!g.execute_control(0x08));
    assert_eq!(g.cursor_col(), 7);
}

#[test]
fn osc_sets_title_only_for_codes_0_and_2() {
    assert_eq!(osc_title(&[b"0".to_vec(), b"hello".to_vec()]), Some("hello".to_string()));
    assert_eq!(osc_title(&[b"2".to_vec(), b"w".to_vec()]), Some("w".to_string()));
    assert_eq!(osc_title(&[b"1".to_vec(), b"icon".to_vec()]), None);
    assert_eq!(osc_title(&[b"0".to_vec()]), None);
    assert_eq!(osc_title(&[b"0".to_vec(), vec![0xff, 0xfe]]), None);
    assert_eq!(osc_title(&[]), None);
}
