use seq_algebra::{compress, decode, encode, flatten, pack};

#[test]
fn compress_of_empty_and_single() {
    let none: [i32; 0] = [];
    let one: [i32; 1] = [7];
    assert!(compress(&none).is_empty());
    assert_eq!(compress(&one), vec![&7]);
}

#[test]
fn compress_of_letters() {
    let v: [char; 19] = [
        'a', 'b', 'b', 'c', 'd', 'd', 'd', 'e', 'e', 'e', 'f', 'g', 'h', 'h', 'h', 'h', 'i', 'i',
        'j',
    ];
    let r: String = compress(&v).into_iter().collect();
    assert_eq!(r, "abcdefghij");
}

#[test]
fn compress_keeps_duplicates_that_are_no_neighbours() {
    let v: [i32; 7] = [1, 1, 2, 1, 1, 2, 2];
    assert_eq!(compress(&v), vec![&1, &2, &1, &2]);
}

#[test]
fn compress_keeps_the_first_of_each_run() {
    let v: [i32; 5] = [4, 4, 4, 9, 9];
    let r = compress(&v);
    assert!(std::ptr::eq(r[0], &v[0]));
    assert!(std::ptr::eq(r[1], &v[3]));
}

#[test]
fn compress_leaves_no_equal_neighbours() {
    let v: [i32; 12] = [3, 3, 1, 1, 1, 3, 2, 2, 3, 3, 3, 1];
    let r = compress(&v);
    assert_eq!(r, vec![&3, &1, &3, &2, &3, &1]);
    let mut i: usize = 0;
    while i + 1 < r.len() {
        assert_ne!(r[i], r[i + 1]);
        i += 1;
    }
}

#[test]
fn pack_of_empty_and_double() {
    let none: [i32; 0] = [];
    let two: [i32; 2] = [12, 3];
    assert!(pack(&none).is_empty());
    assert_eq!(pack(&two), vec![vec![&12], vec![&3]]);
}

#[test]
fn pack_of_letters() {
    let v: [char; 19] = [
        'a', 'b', 'b', 'c', 'd', 'd', 'd', 'e', 'e', 'e', 'f', 'g', 'h', 'h', 'h', 'h', 'i', 'i',
        'j',
    ];
    let r: Vec<String> = pack(&v).into_iter().map(|g| g.into_iter().collect()).collect();
    assert_eq!(r, vec!["a", "bb", "c", "ddd", "eee", "f", "g", "hhhh", "ii", "j"]);
}

#[test]
fn pack_groups_join_to_the_whole() {
    let v: [i32; 12] = [3, 3, 1, 1, 1, 3, 2, 2, 3, 3, 3, 1];
    let groups = pack(&v);
    assert!(groups.iter().all(|g| !g.is_empty()));
    let parts: Vec<&[&i32]> = groups.iter().map(|g| g.as_slice()).collect();
    let joined: Vec<i32> = flatten(&parts).into_iter().map(|e| **e).collect();
    assert_eq!(joined, v.to_vec());
}

#[test]
fn heads_of_packed_groups_are_the_compressed_sequence() {
    let v: [i32; 12] = [3, 3, 1, 1, 1, 3, 2, 2, 3, 3, 3, 1];
    let heads: Vec<&i32> = pack(&v).iter().map(|g| g[0]).collect();
    assert_eq!(heads, compress(&v));
}

#[test]
fn a_run_grows_from_its_head() {
    // With floats, NaN equals nothing, itself included: each NaN is a run.
    let v: [f64; 5] = [1.0, 1.0, f64::NAN, f64::NAN, 1.0];
    let lengths: Vec<usize> = pack(&v).iter().map(|g| g.len()).collect();
    assert_eq!(lengths, vec![2, 1, 1, 1]);
    assert_eq!(compress(&v).len(), 4);
}

#[test]
fn encode_of_empty_and_double() {
    let none: [i32; 0] = [];
    let two: [i32; 2] = [12, 3];
    assert!(encode(&none).is_empty());
    assert_eq!(encode(&two), vec![(1, &12), (1, &3)]);
}

#[test]
fn encode_of_numbers() {
    let v: [i32; 19] = [1, 2, 2, 3, 4, 4, 4, 5, 5, 5, 6, 7, 8, 8, 8, 8, 9, 9, 10];
    assert_eq!(
        encode(&v),
        vec![
            (1, &1),
            (2, &2),
            (1, &3),
            (3, &4),
            (3, &5),
            (1, &6),
            (1, &7),
            (4, &8),
            (2, &9),
            (1, &10)
        ]
    );
}

#[test]
fn encode_of_letters() {
    let v: [char; 19] = [
        'a', 'b', 'b', 'c', 'd', 'd', 'd', 'e', 'e', 'e', 'f', 'g', 'h', 'h', 'h', 'h', 'i', 'i',
        'j',
    ];
    assert_eq!(
        encode(&v),
        vec![
            (1, &'a'),
            (2, &'b'),
            (1, &'c'),
            (3, &'d'),
            (3, &'e'),
            (1, &'f'),
            (1, &'g'),
            (4, &'h'),
            (2, &'i'),
            (1, &'j')
        ]
    );
}

#[test]
fn decode_expands_each_entry() {
    let code: [(usize, char); 3] = [(2, 'a'), (1, 'b'), (3, 'c')];
    let r: String = decode(&code).into_iter().collect();
    assert_eq!(r, "aabccc");
}

#[test]
fn decode_of_empty_and_of_zero_counts() {
    let none: [(usize, char); 0] = [];
    assert!(decode(&none).is_empty());
    let code: [(usize, char); 3] = [(0, 'a'), (2, 'b'), (0, 'c')];
    assert_eq!(decode(&code), vec![&'b', &'b']);
}

#[test]
fn decode_inverts_encode() {
    let v: [char; 19] = [
        'a', 'b', 'b', 'c', 'd', 'd', 'd', 'e', 'e', 'e', 'f', 'g', 'h', 'h', 'h', 'h', 'i', 'i',
        'j',
    ];
    let code = encode(&v);
    let back: Vec<char> = decode(&code).into_iter().map(|e| **e).collect();
    assert_eq!(back, v.to_vec());
}

#[test]
fn decode_inverts_encode_on_numbers() {
    let none: [i32; 0] = [];
    let v: [i32; 12] = [3, 3, 1, 1, 1, 3, 2, 2, 3, 3, 3, 1];
    assert!(decode(&encode(&none)).is_empty());
    let code = encode(&v);
    let back: Vec<i32> = decode(&code).into_iter().map(|e| **e).collect();
    assert_eq!(back, v.to_vec());
}
