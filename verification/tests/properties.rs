use seqdiff::{edit_distance, Action, Patch};

fn source<T: Clone>(script: &[Patch<T>]) -> Vec<T> {
    let mut out = Vec::new();
    for patch in script {
        if patch.action == Action::Keep || patch.action == Action::Remove {
            out.push(patch.value.clone());
        }
    }
    out
}

fn target<T: Clone>(script: &[Patch<T>]) -> Vec<T> {
    let mut out = Vec::new();
    for patch in script {
        if patch.action == Action::Keep || patch.action == Action::Add {
            out.push(patch.value.clone());
        }
    }
    out
}

fn pairs() -> Vec<(Vec<i32>, Vec<i32>)> {
    vec![
        (vec![], vec![]),
        (vec![1], vec![]),
        (vec![], vec![1]),
        (vec![1, 2, 3, 4], vec![2, 3, 4, 6]),
        (vec![1, 2, 3, 4], vec![2, 1, 4, 3]),
        (vec![1, 2, 3, 4], vec![5, 6, 7, 8]),
        (vec![1, 2, 3, 4], vec![0, 1, 2, 10, 4, 6]),
        (vec![1, 1, 1], vec![1, 1]),
        (vec![1, 2, 1, 2, 1], vec![2, 1, 2]),
        (vec![3, 1, 4, 1, 5, 9, 2, 6], vec![2, 7, 1, 8, 2, 8, 1, 8]),
        (vec![5, 4, 3, 2, 1], vec![1, 2, 3, 4, 5]),
    ]
}

#[test]
fn script_rebuilds_target() {
    for (v1, v2) in pairs() {
        let script = edit_distance(&v1, &v2);
        assert_eq!(target(&script), v2);
    }
}

#[test]
fn script_rebuilds_source() {
    for (v1, v2) in pairs() {
        let script = edit_distance(&v1, &v2);
        assert_eq!(source(&script), v1);
    }
}

#[test]
fn script_of_same_keeps_everything() {
    let v = vec![4, 8, 15, 16, 23, 42];
    let script = edit_distance(&v, &v);
    assert_eq!(script.len(), v.len());
    for (patch, value) in script.iter().zip(v.iter()) {
        assert_eq!(patch.action, Action::Keep);
        assert_eq!(patch.value, *value);
    }
}

#[test]
fn script_of_one_element_with_itself() {
    let script = edit_distance(&[7], &[7]);
    assert_eq!(script, vec![Patch::new(7, Action::Keep)]);
}

#[test]
fn script_of_two_empty_sequences_is_empty() {
    let v: Vec<i32> = vec![];
    let script = edit_distance(&v, &v);
    assert!(script.is_empty());
}

#[test]
fn empty_source_adds_everything() {
    let v1: Vec<i32> = vec![];
    let v2 = vec![9, 8, 9];
    let script = edit_distance(&v1, &v2);
    let exp = vec![
        Patch::new(9, Action::Add),
        Patch::new(8, Action::Add),
        Patch::new(9, Action::Add),
    ];
    assert_eq!(script, exp);
}

#[test]
fn empty_target_removes_everything() {
    let v1 = vec![9, 8, 9];
    let v2: Vec<i32> = vec![];
    let script = edit_distance(&v1, &v2);
    let exp = vec![
        Patch::new(9, Action::Remove),
        Patch::new(8, Action::Remove),
        Patch::new(9, Action::Remove),
    ];
    assert_eq!(script, exp);
}

#[test]
fn script_holds_no_placeholder() {
    for (v1, v2) in pairs() {
        let script = edit_distance(&v1, &v2);
        for patch in &script {
            assert_ne!(patch.action, Action::Nothing);
        }
    }
}

#[test]
fn same_inputs_give_same_script() {
    for (v1, v2) in pairs() {
        let first = edit_distance(&v1, &v2);
        let second = edit_distance(&v1.clone(), &v2.clone());
        assert_eq!(first, second);
    }
}

#[test]
fn script_counts_kept_elements_once() {
    let script = edit_distance(&[1, 2, 3, 4], &[2, 3, 4, 6]);
    let kept = script.iter().filter(|patch| patch.action == Action::Keep).count();
    assert_eq!(kept, 3);
    assert_eq!(script.len(), 4 + 4 - 3);
    for (v1, v2) in pairs() {
        let script = edit_distance(&v1, &v2);
        let kept = script.iter().filter(|patch| patch.action == Action::Keep).count();
        assert_eq!(script.len() + kept, v1.len() + v2.len());
        assert!(script.len() <= v1.len() + v2.len());
    }
}

#[test]
fn disjoint_sequences_remove_then_add() {
    let script = edit_distance(&[1, 2], &[3, 4, 5]);
    let exp = vec![
        Patch::new(1, Action::Remove),
        Patch::new(2, Action::Remove),
        Patch::new(3, Action::Add),
        Patch::new(4, Action::Add),
        Patch::new(5, Action::Add),
    ];
    assert_eq!(script, exp);
}

#[test]
fn repeated_elements_match_the_longest_run() {
    let script = edit_distance(&[1, 1, 1], &[1, 1]);
    let exp = vec![
        Patch::new(1, Action::Keep),
        Patch::new(1, Action::Keep),
        Patch::new(1, Action::Remove),
    ];
    assert_eq!(script, exp);
}

#[test]
fn source_runs_out_first() {
    let script = edit_distance(&[1, 2], &[1, 2, 3, 4]);
    let exp = vec![
        Patch::new(1, Action::Keep),
        Patch::new(2, Action::Keep),
        Patch::new(3, Action::Add),
        Patch::new(4, Action::Add),
    ];
    assert_eq!(script, exp);
}

#[test]
fn target_runs_out_first() {
    let script = edit_distance(&[1, 2, 3, 4], &[1, 2]);
    let exp = vec![
        Patch::new(1, Action::Keep),
        Patch::new(2, Action::Keep),
        Patch::new(3, Action::Remove),
        Patch::new(4, Action::Remove),
    ];
    assert_eq!(script, exp);
}

#[test]
fn script_is_not_the_shortest() {
    // The earliest start in the source wins over a longer common block.
    let script = edit_distance(&[1, 2, 3], &[2, 3, 1]);
    let exp = vec![
        Patch::new(2, Action::Add),
        Patch::new(3, Action::Add),
        Patch::new(1, Action::Keep),
        Patch::new(2, Action::Remove),
        Patch::new(3, Action::Remove),
    ];
    assert_eq!(script, exp);
}

#[test]
fn characters_as_elements() {
    let s1 = ['m', 'a', 'r', 'c', 'o'];
    let s2 = ['m', 'a', 'r', 'i', 'o'];
    let script = edit_distance(&s1, &s2);
    let exp = vec![
        Patch::new('m', Action::Keep),
        Patch::new('a', Action::Keep),
        Patch::new('r', Action::Keep),
        Patch::new('i', Action::Add),
        Patch::new('c', Action::Remove),
        Patch::new('o', Action::Keep),
    ];
    assert_eq!(script, exp);
}

#[test]
fn strings_as_elements() {
    let old = vec![String::from("fn main() {"), String::from("    run();"), String::from("}")];
    let new = vec![
        String::from("fn main() {"),
        String::from("    setup();"),
        String::from("    run();"),
        String::from("}"),
    ];
    let script = edit_distance(&old, &new);
    let exp = vec![
        Patch::new(String::from("fn main() {"), Action::Keep),
        Patch::new(String::from("    setup();"), Action::Add),
        Patch::new(String::from("    run();"), Action::Keep),
        Patch::new(String::from("}"), Action::Keep),
    ];
    assert_eq!(script, exp);
    assert_eq!(source(&script), old);
    assert_eq!(target(&script), new);
}
