use assignments::password::{judge_guess, GuessReply};
use assignments::vec_ops::{add_n, add_n_inplace, reverse, reverse_clone};

#[test]
fn test_password_checker() {
    assert_eq!(judge_guess(0, &String::from("Password1")), GuessReply::Guessed);
}

#[test]
fn test_add_n() {
    assert_eq!(add_n(vec![1], 2).pop().unwrap(), 3);
}

#[test]
fn test_add_n_inplace() {
    let mut v = vec![1];
    add_n_inplace(&mut v, 2);
    assert_eq!(v[0], 3);
}

#[test]
fn test_reverse() {
    let mut v = vec![1, 2, 3];
    reverse(&mut v);
    assert_eq!(v[0], 3);
}

#[test]
fn add_n_shifts_every_element() {
    assert_eq!(add_n(vec![-5, 0, 7, i32::MAX - 3], 3), vec![-2, 3, 10, i32::MAX]);
    assert_eq!(add_n(vec![], 9), Vec::<i32>::new());
}

#[test]
fn add_n_twice_is_add_once() {
    let v = vec![4, -8, 15];
    assert_eq!(add_n(add_n(v.clone(), 3), 4), add_n(v, 7));
}

#[test]
fn add_n_inplace_matches_add_n() {
    let mut v = vec![10, -20, 30, -40];
    let expected = add_n(v.clone(), -5);
    add_n_inplace(&mut v, -5);
    assert_eq!(v, expected);
}

#[test]
fn reverse_whole_vector() {
    let mut v = vec![1, 2, 3, 4, 5, 6];
    reverse(&mut v);
    assert_eq!(v, vec![6, 5, 4, 3, 2, 1]);
    let mut e: Vec<u8> = vec![];
    reverse(&mut e);
    assert!(e.is_empty());
}

#[test]
fn reverse_twice_gives_back_original() {
    let mut v = vec!["a", "b", "c", "d", "e"];
    reverse(&mut v);
    reverse(&mut v);
    assert_eq!(v, vec!["a", "b", "c", "d", "e"]);
}

#[test]
fn reverse_clone_odd_and_even() {
    let mut v = vec![String::from("x"), String::from("y"), String::from("z")];
    reverse_clone(&mut v);
    assert_eq!(v, vec![String::from("z"), String::from("y"), String::from("x")]);
    let mut w = vec![1, 2, 3, 4];
    reverse_clone(&mut w);
    assert_eq!(w, vec![4, 3, 2, 1]);
}

#[test]
fn password_line_keeps_its_terminator() {
    assert_eq!(judge_guess(0, &String::new()), GuessReply::Stop);
    assert_eq!(judge_guess(0, &String::from("Password1\n")), GuessReply::Wrong { shown: 1, next: 1 });
    assert_eq!(judge_guess(41, &String::from("hunter2")), GuessReply::Wrong { shown: 42, next: 42 });
    assert_eq!(judge_guess(i32::MAX, &String::from("Password1")), GuessReply::Guessed);
}
