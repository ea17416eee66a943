use voice_inputter::http::{get_string, read_answer, Gather, HttpError, Transfer};

#[test]
fn a_transfer_is_counted() {
    assert_eq!(Transfer::begin(Some(404), None), Err(HttpError::Status(404)));
    assert_eq!(Transfer::begin(None, Some(5)), Err(HttpError::Status(0)));
    let mut t = Transfer::begin(Some(200), Some(5)).unwrap();
    t.chunk(3);
    assert_eq!(t.finish(), Err(HttpError::Truncated));
    t.chunk(2);
    assert_eq!(t.finish(), Ok(()));
    assert_eq!(Transfer::begin(Some(200), None).unwrap().finish(), Ok(()));
}

#[test]
fn an_answer_in_pieces() {
    let text = "{\"имя\": 1}".as_bytes().to_vec();
    let (a, b) = text.split_at(3);
    let pieces = vec![a.to_vec(), b.to_vec()];
    assert_eq!(read_answer(Some(200), None, &pieces, 100), Ok("{\"имя\": 1}".to_string()));
    assert_eq!(
        read_answer(Some(200), Some(text.len() as u32), &pieces, text.len()),
        Ok("{\"имя\": 1}".to_string())
    );
    assert_eq!(read_answer(Some(200), None, &pieces, text.len() - 1), Err(HttpError::Cancelled));
    assert_eq!(read_answer(Some(200), Some(100), &pieces, 100), Err(HttpError::Truncated));
    assert_eq!(read_answer(Some(500), None, &pieces, 100), Err(HttpError::Status(500)));
    assert_eq!(read_answer(Some(200), None, &vec![vec![0xFF]], 100), Err(HttpError::NotUtf8));
    assert_eq!(read_answer(Some(200), None, &vec![], 0), Ok(String::new()));
}

#[test]
fn a_piece_too_much_is_refused() {
    let mut g = Gather::begin(Some(200), None, 4).unwrap();
    assert_eq!(g.take(b"abc"), Ok(()));
    assert_eq!(g.take(b"de"), Err(HttpError::Cancelled));
    assert_eq!(g.take(b"d"), Ok(()));
    assert_eq!(get_string(g), Ok("abcd".to_string()));
}

#[test]
fn errors_in_words() {
    assert_eq!(HttpError::Status(404).message(), "сервер ответил 404");
    assert_eq!(HttpError::Cancelled.message(), "отменено");
    assert_eq!(HttpError::Truncated.message(), "загрузка прервалась");
    assert_eq!(HttpError::NotUtf8.message(), "ответ не в UTF-8");
}
