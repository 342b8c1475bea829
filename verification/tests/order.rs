use seq_algebra::{find_length, is_palindrome, reverse, rotate};

#[test]
fn reverse_of_empty_and_single() {
    let none: [i32; 0] = [];
    let one: [i32; 1] = [7];
    assert!(reverse(&none).is_empty());
    assert_eq!(reverse(&one), vec![&7]);
}

#[test]
fn reverse_of_double_and_long() {
    let two: [i32; 2] = [12, 3];
    let long: [i32; 9] = [32, 17, 23, 9, 14, 6, 27, 18, 2];
    assert_eq!(reverse(&two), vec![&3, &12]);
    assert_eq!(reverse(&long), vec![&2, &18, &27, &6, &14, &9, &23, &17, &32]);
}

#[test]
fn reverse_keeps_length_and_undoes_itself() {
    let long: [i32; 9] = [32, 17, 23, 9, 14, 6, 27, 18, 2];
    let once = reverse(&long);
    assert_eq!(find_length(&once), find_length(&long));
    let twice = reverse(&once);
    let back: Vec<i32> = twice.iter().map(|e| ***e).collect();
    assert_eq!(back, long.to_vec());
}

#[test]
fn reverse_keeps_the_elements() {
    let v: [i32; 6] = [4, 1, 4, 2, 1, 4];
    let mut before: Vec<i32> = v.to_vec();
    let mut after: Vec<i32> = reverse(&v).iter().map(|e| **e).collect();
    before.sort();
    after.sort();
    assert_eq!(before, after);
}

#[test]
fn palindrome_of_empty_and_single() {
    let none: [i32; 0] = [];
    let one: [i32; 1] = [7];
    assert!(is_palindrome(&none));
    assert!(is_palindrome(&one));
}

#[test]
fn palindrome_of_letters() {
    let v: [char; 11] = ['d', 'e', 'a', 'd', 'b', 'e', 'b', 'd', 'a', 'e', 'd'];
    assert!(is_palindrome(&v));
}

#[test]
fn long_is_no_palindrome() {
    let long: [i32; 9] = [32, 17, 23, 9, 14, 6, 27, 18, 2];
    assert!(!is_palindrome(&long));
}

#[test]
fn palindrome_of_even_length() {
    let yes: [i32; 4] = [1, 2, 2, 1];
    let no: [i32; 4] = [1, 2, 3, 1];
    let pair: [i32; 2] = [12, 3];
    assert!(is_palindrome(&yes));
    assert!(!is_palindrome(&no));
    assert!(!is_palindrome(&pair));
}

#[test]
fn palindrome_needs_every_pair_to_match() {
    let outer: [i32; 5] = [1, 2, 3, 2, 9];
    let inner: [i32; 5] = [1, 2, 3, 4, 1];
    assert!(!is_palindrome(&outer));
    assert!(!is_palindrome(&inner));
}

#[test]
fn palindrome_does_not_compare_the_middle() {
    let v: [f64; 3] = [1.0, f64::NAN, 1.0];
    let w: [f64; 2] = [f64::NAN, f64::NAN];
    assert!(is_palindrome(&v));
    assert!(!is_palindrome(&w));
}

#[test]
fn rotate_by_three() {
    let long: [i32; 9] = [32, 17, 23, 9, 14, 6, 27, 18, 2];
    assert_eq!(rotate(&long, 3), vec![&9, &14, &6, &27, &18, &2, &32, &17, &23]);
}

#[test]
fn rotate_by_zero_and_of_empty() {
    let none: [i32; 0] = [];
    let long: [i32; 9] = [32, 17, 23, 9, 14, 6, 27, 18, 2];
    assert!(rotate(&none, 1).is_empty());
    assert_eq!(rotate(&long, 0), long.iter().collect::<Vec<&i32>>());
}

#[test]
fn rotate_by_half() {
    let v: [char; 19] = [
        'a', 'b', 'b', 'c', 'd', 'd', 'd', 'e', 'e', 'e', 'f', 'g', 'h', 'h', 'h', 'h', 'i', 'i',
        'j',
    ];
    let r: String = rotate(&v, v.len() / 2).into_iter().collect();
    assert_eq!(r, "efghhhhiijabbcdddee");
}

#[test]
fn rotate_beyond_the_length_does_not_wrap() {
    let long: [i32; 9] = [32, 17, 23, 9, 14, 6, 27, 18, 2];
    let same: Vec<&i32> = long.iter().collect();
    assert_eq!(rotate(&long, 9), same);
    assert_eq!(rotate(&long, 10), same);
    assert_eq!(rotate(&long, 12), same);
    assert_eq!(rotate(&long, usize::MAX), same);
}
