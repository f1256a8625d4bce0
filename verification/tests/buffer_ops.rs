use hired::buffer::{Buffer, VecBuffer};
use hired::error::EdError;

fn create_data() -> Vec<String> {
    vec![
        "1\n".to_string(),
        "2\n".to_string(),
        "3\n".to_string(),
        "4\n".to_string(),
        "5\n".to_string(),
        "6\n".to_string(),
    ]
}

fn create_buffer() -> VecBuffer {
    let mut buf = VecBuffer::new();
    buf.insert(&mut create_data(), 0).unwrap();
    buf
}

#[test]
fn verify_index() {
    let buffer = create_buffer();
    assert_eq!(Ok(()), buffer.verify_index(buffer.len()));
    assert_eq!(Ok(()), buffer.verify_index(0));
    assert_eq!(Err(EdError::IndexTooBig), buffer.verify_index(buffer.len() + 1));
}

#[test]
fn verify_selection() {
    let buffer = create_buffer();
    assert_eq!(Ok(()), buffer.verify_selection((0, buffer.len())));
    assert_eq!(Err(EdError::IndexTooBig), buffer.verify_selection((0, buffer.len() + 1)));
    assert_eq!(Err(EdError::SelectionEmpty), buffer.verify_selection((1, 0)));
}

#[test]
fn saved() {
    let mut buffer = VecBuffer::new();
    assert!(buffer.saved());
    buffer.insert(&mut vec!["0".to_string()], 0).unwrap();
    assert!(!buffer.saved());
    buffer.set_saved();
    assert!(buffer.saved());
}

#[test]
fn get_selection() {
    let data = create_data();
    let mut buffer = VecBuffer::new();
    buffer.insert(&mut data.clone(), 0).unwrap();
    assert_eq!(buffer.get_selection((0, 2)), Ok(&data[0..2]));
}

#[test]
fn insert() {
    let data = create_data();
    let mut compare = data.clone();
    let mut buffer = VecBuffer::new();
    buffer.insert(&mut data.clone(), 0).unwrap();
    // Check that it inserts as expected
    let mut tmp = compare.split_off(3);
    compare.append(&mut data.clone());
    compare.append(&mut tmp);
    buffer.insert(&mut data.clone(), 3).unwrap();
    assert_eq!(Ok(&compare[..]), buffer.get_selection((0, buffer.len())));
}

#[test]
fn delete() {
    let mut buffer = VecBuffer::new();
    let mut data = create_data();
    buffer.insert(&mut data.clone(), 0).unwrap();
    buffer.delete((0, 3)).unwrap();
    let mut tail = data.split_off(3);
    let _deleted = data.split_off(0);
    data.append(&mut tail);
    assert_eq!(Ok(&data[..]), buffer.get_selection((0, buffer.len())));
}

#[test]
fn change() {
    let mut buffer1 = create_buffer();
    let mut buffer2 = create_buffer();
    let data = create_data();

    // Change should be the same as delete and insert
    buffer1.change(&mut data.clone(), (2, 4)).unwrap();
    buffer2.delete((2, 4)).unwrap();
    buffer2.insert(&mut data.clone(), 2).unwrap();
    assert_eq!(
        buffer1.get_selection((0, buffer1.len())).unwrap(),
        buffer2.get_selection((0, buffer2.len())).unwrap()
    );
}

#[test]
fn mov() {
    // Create identical buffers and verify the move by
    // comparing it to get_selection and insert
    let mut tmp = create_data();
    let mut buffer1 = VecBuffer::new();
    let mut buffer2 = VecBuffer::new();
    buffer1.insert(&mut tmp.clone(), 0).unwrap();
    buffer2.insert(&mut tmp, 0).unwrap();
    // forward
    buffer1.mov((0, 3), 5).unwrap();
    let mut tmp = buffer2.get_selection((0, 3)).unwrap().to_vec();
    buffer2.insert(&mut tmp, 5).unwrap();
    buffer2.delete((0, 3)).unwrap();
    assert_eq!(
        buffer1.get_selection((0, buffer1.len())),
        buffer2.get_selection((0, buffer2.len()))
    );

    // Recreate buffers and test backward
    let mut tmp = create_data();
    let mut buffer1 = VecBuffer::new();
    let mut buffer2 = VecBuffer::new();
    buffer1.insert(&mut tmp.clone(), 0).unwrap();
    buffer2.insert(&mut tmp, 0).unwrap();
    // backward
    buffer1.mov((3, 5), 2).unwrap();
    let mut tmp = buffer2.get_selection((3, 5)).unwrap().to_vec();
    buffer2.delete((3, 5)).unwrap();
    buffer2.insert(&mut tmp, 2 - 1).unwrap();
    assert_eq!(
        buffer1.get_selection((0, buffer1.len())),
        buffer2.get_selection((0, buffer2.len()))
    );

    // Verify the edges of moving into self
    let mut buffer = create_buffer();
    assert_eq!(Err(EdError::MoveIntoSelf), buffer.mov((1, 4), 2));
    assert_eq!(Err(EdError::MoveIntoSelf), buffer.mov((1, 4), 3));
    assert_eq!(Ok(()), buffer.mov((1, 4), 4));
    assert_eq!(Ok(()), buffer.mov((1, 4), 1));
}

#[test]
fn copy() {
    // Compare with get_selection and insert
    let data = create_data();
    let mut buffer1 = VecBuffer::new();
    let mut buffer2 = VecBuffer::new();
    buffer1.insert(&mut data.clone(), 0).unwrap();
    buffer2.insert(&mut data.clone(), 0).unwrap();
    // copy forward
    buffer1.copy((1, 3), 4).unwrap();
    let mut tmp = buffer2.get_selection((1, 3)).unwrap().to_vec();
    buffer2.insert(&mut tmp, 4).unwrap();
    assert_eq!(
        buffer1.get_selection((0, buffer1.len())),
        buffer2.get_selection((0, buffer2.len()))
    );
}

#[test]
fn join() {
    let mut data = create_data();
    let mut buffer = VecBuffer::new();
    buffer.insert(&mut data.clone(), 0).unwrap();
    // First join two lines together, 1 and 2
    buffer.join((1, 3)).unwrap();
    let tmp = data.remove(2);
    data[1].pop(); // Get rid of the newline
    data[1].push_str(&tmp);
    assert_eq!(&data[..], buffer.get_selection((0, buffer.len())).unwrap());
    // Then join the whole buffer
    buffer.join((0, buffer.len())).unwrap();
    let mut tmp = String::new();
    for line in data {
        tmp.push_str(&line[0..line.len() - 1]);
    }
    tmp.push('\n');
    assert_eq!(&tmp, &buffer.get_selection((0, 1)).unwrap()[0]);
}

#[test]
fn search_replace() {
    let mut data = vec!["test line\n".to_string(), "also a test line\n".to_string()];
    let mut buffer = VecBuffer::new();
    buffer.insert(&mut data.clone(), 0).unwrap();
    // Verify non-global against replacen
    buffer.search_replace(("test", "best"), (0, buffer.len()), false).unwrap();
    let line = data[0].replacen("test", "best", 1);
    data[0] = line;
    assert_eq!(&data[..], buffer.get_selection((0, buffer.len())).unwrap());
    // And verify global using replace
    buffer.search_replace(("line", "string"), (0, buffer.len()), true).unwrap();
    data = data.iter().map(|line| line.replace("line", "string")).collect();
    assert_eq!(&data[..], buffer.get_selection((0, buffer.len())).unwrap());
}

#[test]
fn find_matching() {
    let mut data = vec![
        "test line\n".to_string(),
        "hard to write random works\n".to_string(),
        "to test over\n".to_string(),
        "None the less, it is needed\n".to_string(),
        "in this case\n".to_string(),
    ];
    let mut buffer = VecBuffer::new();
    buffer.insert(&mut data, 0).unwrap();
    // Verify the return using known indices
    assert_eq!(vec![0, 2], buffer.find_matching("test", (0, buffer.len())).unwrap());
}

#[test]
fn delete_front_lines() {
    let mut buffer = create_buffer();
    buffer.delete((0, 3)).unwrap();
    let want = vec!["4\n".to_string(), "5\n".to_string(), "6\n".to_string()];
    assert_eq!(Ok(&want[..]), buffer.get_selection((0, buffer.len())));
    assert_eq!(buffer.len(), 3);
}

#[test]
fn delete_shrinks_by_width_and_keeps_rest() {
    let mut buffer = create_buffer();
    let before = buffer.len();
    buffer.delete((1, 4)).unwrap();
    assert_eq!(buffer.len(), before - 3);
    let want = vec!["1\n".to_string(), "5\n".to_string(), "6\n".to_string()];
    assert_eq!(Ok(&want[..]), buffer.get_selection((0, buffer.len())));
}

#[test]
fn verify_selection_on_empty_buffer() {
    let buffer = VecBuffer::new();
    assert_eq!(Err(EdError::SelectionEmpty), buffer.verify_selection((0, 0)));
    assert_eq!(Err(EdError::IndexTooBig), buffer.verify_selection((0, 1)));
    assert_eq!(Err(EdError::SelectionEmpty), buffer.verify_selection((2, 2)));
}

#[test]
fn move_forward_gives_rotated_buffer() {
    let mut buffer = create_buffer();
    buffer.mov((0, 3), 5).unwrap();
    let want = vec![
        "4\n".to_string(),
        "5\n".to_string(),
        "1\n".to_string(),
        "2\n".to_string(),
        "3\n".to_string(),
        "6\n".to_string(),
    ];
    assert_eq!(Ok(&want[..]), buffer.get_selection((0, buffer.len())));
}

#[test]
fn move_matches_copy_then_delete() {
    let mut moved = create_buffer();
    moved.mov((0, 3), 5).unwrap();
    let mut rebuilt = create_buffer();
    rebuilt.copy((0, 3), 5).unwrap();
    rebuilt.delete((0, 3)).unwrap();
    assert_eq!(
        moved.get_selection((0, moved.len())),
        rebuilt.get_selection((0, rebuilt.len()))
    );
}

#[test]
fn join_single_line_is_noop() {
    let mut buffer = create_buffer();
    buffer.join((2, 3)).unwrap();
    let want = create_data();
    assert_eq!(Ok(&want[..]), buffer.get_selection((0, buffer.len())));
}

#[test]
fn search_replace_first_occurrence_only() {
    let mut buffer = VecBuffer::new();
    buffer
        .insert(&mut vec!["test line\n".to_string(), "also a test line\n".to_string()], 0)
        .unwrap();
    let sel = buffer.search_replace(("test", "best"), (0, 2), false).unwrap();
    let want = vec!["best line\n".to_string(), "also a test line\n".to_string()];
    assert_eq!(Ok(&want[..]), buffer.get_selection((0, buffer.len())));
    assert_eq!(sel, (0, 1));
}

#[test]
fn search_replace_global_resplits_lines() {
    let mut buffer = VecBuffer::new();
    buffer.insert(&mut vec!["a b\n".to_string(), "c b\n".to_string()], 0).unwrap();
    // Replacing the separator with a terminator doubles the line count.
    let sel = buffer.search_replace((" ", "\n"), (0, 2), true).unwrap();
    let want = vec![
        "a\n".to_string(),
        "b\n".to_string(),
        "c\n".to_string(),
        "b\n".to_string(),
    ];
    assert_eq!(Ok(&want[..]), buffer.get_selection((0, buffer.len())));
    assert_eq!(sel, (0, 4));
}

#[test]
fn search_replace_no_match_keeps_buffer() {
    let mut buffer = create_buffer();
    buffer.set_saved();
    let sel = buffer.search_replace(("zap", "zip"), (0, 6), false).unwrap();
    assert_eq!(sel, (0, 6));
    let want = create_data();
    assert_eq!(Ok(&want[..]), buffer.get_selection((0, buffer.len())));
    assert!(buffer.saved());
}

#[test]
fn search_replace_rejects_bad_pattern() {
    let mut buffer = create_buffer();
    assert_eq!(
        Err(EdError::InvalidRegex),
        buffer.search_replace(("[", "x"), (0, 2), false)
    );
    assert_eq!(Err(EdError::InvalidRegex), buffer.find_matching("[", (0, 2)));
}

#[test]
fn copy_destination_before_start_steps_back() {
    // The boundary rule: a destination at or before the selection start
    // is shifted one step back before splicing.
    let mut buffer = create_buffer();
    buffer.copy((2, 4), 2).unwrap();
    let want = vec![
        "1\n".to_string(),
        "3\n".to_string(),
        "4\n".to_string(),
        "2\n".to_string(),
        "3\n".to_string(),
        "4\n".to_string(),
        "5\n".to_string(),
        "6\n".to_string(),
    ];
    assert_eq!(Ok(&want[..]), buffer.get_selection((0, buffer.len())));
}

#[test]
fn search_replace_absorbs_next_line_when_terminator_lost() {
    // Line mode: the replacement eats the terminator, so the following
    // line's text is pulled into the result.
    let mut buffer = VecBuffer::new();
    buffer
        .insert(
            &mut vec!["ab\n".to_string(), "cd\n".to_string(), "ef\n".to_string()],
            0,
        )
        .unwrap();
    let sel = buffer.search_replace(("b\n", "X"), (0, 3), false).unwrap();
    let want = vec!["aXcd\n".to_string(), "ef\n".to_string()];
    assert_eq!(Ok(&want[..]), buffer.get_selection((0, buffer.len())));
    assert_eq!(sel, (0, 1));

    // Global mode: the same absorption happens against the first line
    // after the selection.
    let mut buffer = VecBuffer::new();
    buffer
        .insert(
            &mut vec!["ab\n".to_string(), "cd\n".to_string(), "ef\n".to_string()],
            0,
        )
        .unwrap();
    let sel = buffer.search_replace(("d\n", ""), (0, 2), true).unwrap();
    let want = vec!["ab\n".to_string(), "cef\n".to_string()];
    assert_eq!(Ok(&want[..]), buffer.get_selection((0, buffer.len())));
    assert_eq!(sel, (0, 2));
}

#[test]
fn search_replace_on_last_line_regains_terminator() {
    // When the matching line is the last one, a lost terminator is
    // replaced by a fresh one instead of absorbing anything.
    let mut buffer = VecBuffer::new();
    buffer.insert(&mut vec!["ab\n".to_string()], 0).unwrap();
    let sel = buffer.search_replace(("b\n", "X"), (0, 1), false).unwrap();
    let want = vec!["aX\n".to_string()];
    assert_eq!(Ok(&want[..]), buffer.get_selection((0, buffer.len())));
    assert_eq!(sel, (0, 1));
}
