use faultycat_tools::history::check_blank;
use faultycat_tools::history::check_line_kept;
use faultycat_tools::session::Session;

fn entries(s: &Session<u32>) -> Vec<Vec<u8>> {
    s.history_snapshot()
}

#[test]
fn empty_line_is_not_kept() {
    assert!(!check_line_kept(b""));
}

#[test]
fn whitespace_line_is_not_kept() {
    assert!(!check_line_kept(b"  \t "));
}

#[test]
fn echo_line_is_not_kept() {
    assert!(!check_line_kept(b"> ping"));
}

#[test]
fn echo_line_with_leading_spaces_is_not_kept() {
    assert!(!check_line_kept(b"   > ping"));
}

#[test]
fn bare_marker_is_not_kept() {
    assert!(!check_line_kept(b">"));
}

#[test]
fn plain_line_is_kept() {
    assert!(check_line_kept(b"PONG"));
}

#[test]
fn marker_inside_line_is_kept() {
    assert!(check_line_kept(b"a > b"));
}

#[test]
fn blank_chunk_detection() {
    assert!(check_blank(b""));
    assert!(check_blank(b" \r\n\t"));
    assert!(!check_blank(b" ok "));
}

#[test]
fn echoed_command_is_filtered_from_history() {
    // A device that echoes "> " + cmd: after send("ping") the read data
    // holds the echoed line and the answer; only the answer is kept.
    let mut s: Session<u32> = Session::new();
    s.apply_chunk(b"> ping\r\nPONG\r\n");
    assert_eq!(entries(&s), vec![b"PONG".to_vec()]);
}

#[test]
fn blank_lines_are_filtered_from_history() {
    let mut s: Session<u32> = Session::new();
    s.apply_chunk(b"\n\n   \nX\n\t\r\n");
    assert_eq!(entries(&s), vec![b"X".to_vec()]);
}

#[test]
fn trailing_carriage_return_is_stripped() {
    let mut s: Session<u32> = Session::new();
    s.apply_chunk(b"ok\r\n");
    assert_eq!(entries(&s), vec![b"ok".to_vec()]);
}

#[test]
fn line_without_terminator_is_closed_at_chunk_end() {
    let mut s: Session<u32> = Session::new();
    s.apply_chunk(b"partial");
    assert_eq!(entries(&s), vec![b"partial".to_vec()]);
}

#[test]
fn interior_spaces_are_preserved() {
    let mut s: Session<u32> = Session::new();
    s.apply_chunk(b"  a b  \n");
    assert_eq!(entries(&s), vec![b"  a b  ".to_vec()]);
}

fn numbered_line(i: usize) -> Vec<u8> {
    format!("line-{}", i).into_bytes()
}

#[test]
fn history_is_capped_at_one_hundred() {
    let mut s: Session<u32> = Session::new();
    for i in 0..150 {
        let mut chunk = numbered_line(i);
        chunk.push(b'\n');
        s.apply_chunk(&chunk);
    }
    assert_eq!(s.history_len(), 100);
}

#[test]
fn oldest_entries_are_evicted_first() {
    let mut s: Session<u32> = Session::new();
    for i in 0..150 {
        let mut chunk = numbered_line(i);
        chunk.push(b'\n');
        s.apply_chunk(&chunk);
    }
    let h = entries(&s);
    // lines 0..=49 were evicted; 50..=149 remain, oldest first
    assert_eq!(h[0], numbered_line(50));
    assert_eq!(h[99], numbered_line(149));
    for (j, e) in h.iter().enumerate() {
        assert_eq!(*e, numbered_line(50 + j));
    }
}

#[test]
fn no_eviction_below_capacity() {
    let mut s: Session<u32> = Session::new();
    for i in 0..100 {
        let mut chunk = numbered_line(i);
        chunk.push(b'\n');
        s.apply_chunk(&chunk);
    }
    let h = entries(&s);
    assert_eq!(h.len(), 100);
    assert_eq!(h[0], numbered_line(0));
    assert_eq!(h[99], numbered_line(99));
}

#[test]
fn one_chunk_may_carry_many_lines() {
    let mut s: Session<u32> = Session::new();
    s.apply_chunk(b"a\r\nb\r\n> echoed\r\nc");
    assert_eq!(
        entries(&s),
        vec![b"a".to_vec(), b"b".to_vec(), b"c".to_vec()]
    );
}

#[test]
fn the_line_beyond_capacity_evicts_exactly_the_oldest() {
    let mut s: Session<u32> = Session::new();
    for i in 0..101 {
        let mut chunk = numbered_line(i);
        chunk.push(b'\n');
        s.apply_chunk(&chunk);
    }
    let h = entries(&s);
    assert_eq!(h.len(), 100);
    assert_eq!(h[0], numbered_line(1));
    assert_eq!(h[99], numbered_line(100));
}
