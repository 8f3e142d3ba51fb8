use seqdiff::{edit_distance, search_subsequence, Action, Patch};

#[test]
fn check_v1_empty() {
    let v1 = vec![];
    let v2 = vec![2, 3, 4, 6];
    let (got, end1, end2) = search_subsequence(&v1, &v2);
    let exp = vec![
        Patch {
            value: 2,
            action: Action::Add,
        },
        Patch {
            value: 3,
            action: Action::Add,
        },
        Patch {
            value: 4,
            action: Action::Add,
        },
        Patch {
            value: 6,
            action: Action::Add,
        },
    ];
    assert_eq!(got, exp);
    assert_eq!(end1, 0);
    assert_eq!(end2, 4);
}

#[test]
fn check_v2_empty() {
    let v1 = vec![2, 3, 4, 6];
    let v2 = vec![];
    let (got, end1, end2) = search_subsequence(&v1, &v2);
    let exp = vec![
        Patch {
            value: 2,
            action: Action::Remove,
        },
        Patch {
            value: 3,
            action: Action::Remove,
        },
        Patch {
            value: 4,
            action: Action::Remove,
        },
        Patch {
            value: 6,
            action: Action::Remove,
        },
    ];
    assert_eq!(got, exp);
    assert_eq!(end1, 4);
    assert_eq!(end2, 0);
}

#[test]
fn check_search_subsequence() {
    let v1 = vec![1, 2, 3, 4];
    let v2 = vec![2, 3, 4, 6];
    let (got, end1, end2) = search_subsequence(&v1, &v2);
    let exp = vec![
        Patch {
            value: 1,
            action: Action::Remove,
        },
        Patch {
            value: 2,
            action: Action::Keep,
        },
        Patch {
            value: 3,
            action: Action::Keep,
        },
        Patch {
            value: 4,
            action: Action::Keep,
        },
    ];
    assert_eq!(got, exp);
    assert_eq!(end1, 4);
    assert_eq!(end2, 3);
}

#[test]
fn check_edit_distance1() {
    let v1 = vec![1, 2, 3, 4];
    let v2 = vec![2, 3, 4, 6];
    let got = edit_distance(&v1, &v2);
    let exp = vec![
        Patch {
            value: 1,
            action: Action::Remove,
        },
        Patch {
            value: 2,
            action: Action::Keep,
        },
        Patch {
            value: 3,
            action: Action::Keep,
        },
        Patch {
            value: 4,
            action: Action::Keep,
        },
        Patch {
            value: 6,
            action: Action::Add,
        },
    ];
    assert_eq!(got, exp);
}

#[test]
fn check_edit_distance2() {
    let v1 = vec![1, 2, 3, 4];
    let v2 = vec![2, 1, 4, 3];
    let got = edit_distance(&v1, &v2);
    let exp = vec![
        Patch {
            value: 2,
            action: Action::Add,
        },
        Patch {
            value: 1,
            action: Action::Keep,
        },
        Patch {
            value: 4,
            action: Action::Add,
        },
        Patch {
            value: 2,
            action: Action::Remove,
        },
        Patch {
            value: 3,
            action: Action::Keep,
        },
        Patch {
            value: 4,
            action: Action::Remove,
        },
    ];
    assert_eq!(got, exp);
}

#[test]
fn check_edit_distance_divergent() {
    let v1 = vec![1, 2, 3, 4];
    let v2 = vec![5, 6, 7, 8];
    let got = edit_distance(&v1, &v2);
    let exp = vec![
        Patch {
            value: 1,
            action: Action::Remove,
        },
        Patch {
            value: 2,
            action: Action::Remove,
        },
        Patch {
            value: 3,
            action: Action::Remove,
        },
        Patch {
            value: 4,
            action: Action::Remove,
        },
        Patch {
            value: 5,
            action: Action::Add,
        },
        Patch {
            value: 6,
            action: Action::Add,
        },
        Patch {
            value: 7,
            action: Action::Add,
        },
        Patch {
            value: 8,
            action: Action::Add,
        },
    ];
    assert_eq!(got, exp);
}

#[test]
fn check_edit_distance_more_complex() {
    let v1 = vec![1, 2, 3, 4];
    let v2 = vec![0, 1, 2, 10, 4, 6];
    let got = edit_distance(&v1, &v2);
    let exp = vec![
        Patch {
            value: 0,
            action: Action::Add,
        },
        Patch {
            value: 1,
            action: Action::Keep,
        },
        Patch {
            value: 2,
            action: Action::Keep,
        },
        Patch {
            value: 10,
            action: Action::Add,
        },
        Patch {
            value: 3,
            action: Action::Remove,
        },
        Patch {
            value: 4,
            action: Action::Keep,
        },
        Patch {
            value: 6,
            action: Action::Add,
        },
    ];
    println!(">>> v1={v1:?} v2={v2:?}");
    assert_eq!(got, exp);
}
