use custom_format::cursor::StrCursor;

#[test]
fn test_remaining() {
    let mut cursor = StrCursor::new("©⓪ßéèç0€");
    assert_eq!(cursor.next(), Some('©'));
    assert_eq!(cursor.remaining(), "⓪ßéèç0€");
}

#[test]
fn test_read_while() {
    let mut cursor = StrCursor::new("©⓪ßéèç0€");
    assert_eq!(cursor.read_while(|c| c != 'ß'), "©⓪");
    assert_eq!(cursor.read_while(|c| c != 'ç'), "ßéè");
    assert_eq!(cursor.read_while(|c| c != ' '), "ç0€");
}

#[test]
fn test_read_until() {
    let mut cursor = StrCursor::new("©⓪ßéèç0€");
    assert_eq!(cursor.read_until(|c| c == 'ß'), "©⓪");
    assert_eq!(cursor.read_until(|c| c == 'ç'), "ßéè");
    assert_eq!(cursor.read_until(|c| c == ' '), "ç0€");
}

#[test]
fn test_read_until_included() {
    let mut cursor = StrCursor::new("©⓪ßéèç0€");
    assert_eq!(cursor.read_until_included(|c| c == 'ß'), "©⓪ß");
    assert_eq!(cursor.read_until_included(|c| c == 'ç'), "éèç");
    assert_eq!(cursor.read_until_included(|c| c == ' '), "0€");
}

#[test]
fn next_at_end_returns_none() {
    let mut cursor = StrCursor::new("");
    assert_eq!(cursor.next(), None);
    assert_eq!(cursor.remaining(), "");
}

#[test]
fn read_while_empty_match_leaves_cursor() {
    let mut cursor = StrCursor::new("abc");
    assert_eq!(cursor.read_while(|c| c == 'x'), "");
    assert_eq!(cursor.remaining(), "abc");
}

#[test]
fn saved_cursor_restores_position() {
    let mut cursor = StrCursor::new("abc");
    let saved = cursor.clone();
    assert_eq!(cursor.next(), Some('a'));
    cursor = saved;
    assert_eq!(cursor.remaining(), "abc");
}
