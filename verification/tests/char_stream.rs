use toylang::char_stream::CharStream;

#[test]
fn take_one_empty() {
    let mut stream = CharStream::from_str("");
    assert_eq!(None, stream.take());
}

#[test]
fn take_one_twice() {
    let mut stream = CharStream::from_str("ab");
    assert_eq!(Some('a'), stream.take());
    assert_eq!(Some('b'), stream.take());
}

#[test]
fn take_one_unicode() {
    let mut stream = CharStream::from_str("乇乂丅尺卂 丅卄工匚匚");
    assert_eq!(Some('乇'), stream.take());
    assert_eq!(Some('乂'), stream.take());
}

#[test]
fn take_until_whitespace() {
    let mut stream = CharStream::from_str("abc def");
    let abc = stream.take_until(|c| c == ' ');
    assert_eq!("abc", abc);
    let remaining = stream.take_until(|_| false);
    assert_eq!(" def", remaining);
}

#[test]
fn take_until_all() {
    let mut stream = CharStream::from_str("AAA");
    let aaa = stream.take_until(|c| c != 'A');
    assert_eq!("AAA", aaa);
    assert_eq!(None, stream.take());
}

#[test]
fn skip_while_all() {
    let mut stream = CharStream::from_str("aaaa");
    stream.skip_while(|c| c == 'a');
    assert_eq!(None, stream.take());
}

#[test]
fn skip_until_all() {
    let mut stream = CharStream::from_str("aaaa");
    stream.skip_until(|c| c == 'b');
    assert_eq!(None, stream.take());
}

#[test]
fn peek_does_not_consume() {
    let mut stream = CharStream::from_str("xy");
    assert_eq!(Some('x'), stream.peek());
    assert_eq!(Some('x'), stream.peek());
    assert_eq!(0, stream.byte_offset());
    stream.advance();
    assert_eq!(Some('y'), stream.peek());
    assert_eq!(1, stream.byte_offset());
}

#[test]
fn end_of_input_is_a_state_not_an_error() {
    let mut stream = CharStream::from_str("a");
    stream.advance();
    assert_eq!(None, stream.peek());
    stream.advance();
    stream.advance();
    assert_eq!(None, stream.take());
    assert_eq!(1, stream.byte_offset());
    assert_eq!(0, stream.remaining());
    assert_eq!("", stream.take_until(|_| true));
    assert_eq!("", stream.take_while(|_| true));
}

#[test]
fn byte_offset_counts_bytes_of_multibyte_characters() {
    // one, two, three and four bytes in UTF-8
    let mut stream = CharStream::from_str("aé丅😀z");
    assert_eq!(11, stream.remaining());
    assert_eq!(Some('a'), stream.take());
    assert_eq!(1, stream.byte_offset());
    assert_eq!(Some('é'), stream.take());
    assert_eq!(3, stream.byte_offset());
    assert_eq!(Some('丅'), stream.take());
    assert_eq!(6, stream.byte_offset());
    assert_eq!(Some('😀'), stream.take());
    assert_eq!(10, stream.byte_offset());
    assert_eq!(1, stream.remaining());
    assert_eq!(Some('z'), stream.take());
    assert_eq!(11, stream.byte_offset());
}

#[test]
fn take_while_stops_before_the_first_rejected_character() {
    let mut stream = CharStream::from_str("乇乂丅 abc");
    let taken = stream.take_while(|c| c != ' ');
    assert_eq!("乇乂丅", taken);
    assert_eq!(9, stream.byte_offset());
    assert_eq!(Some(' '), stream.peek());
    assert_eq!("", stream.take_while(|c| c != ' '));
    assert_eq!(" abc", stream.unread());
}

#[test]
fn take_until_stops_before_the_first_accepted_character() {
    let mut stream = CharStream::from_str("12;34");
    assert_eq!("12", stream.take_until(|c| c == ';'));
    assert_eq!(Some(';'), stream.take());
    assert_eq!("34", stream.take_until(|c| c == ';'));
    assert_eq!(5, stream.byte_offset());
}

#[test]
fn skip_whitespace_skips_space_cr_and_lf_only() {
    let mut stream = CharStream::from_str(" \r\n \tx");
    stream.skip_whitespace();
    assert_eq!(Some('\t'), stream.peek());
    assert_eq!(4, stream.byte_offset());
    stream.skip_whitespace();
    assert_eq!(4, stream.byte_offset());
}

#[test]
fn skip_until_and_skip_while_move_like_their_take_counterparts() {
    let mut stream = CharStream::from_str("aaabbbccc");
    stream.skip_while(|c| c == 'a');
    assert_eq!(3, stream.byte_offset());
    stream.skip_until(|c| c == 'c');
    assert_eq!(6, stream.byte_offset());
    assert_eq!("ccc", stream.unread());
}
