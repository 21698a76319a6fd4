use fundamental::quick_find::QuickFind;
use fundamental::quick_union::{UfError, UnionFind};
use fundamental::union_find::UF;

#[test]
fn it_works() {
    assert_eq!(2 + 2, 4);
}

#[test]
fn test_vec() {
    let mut test_data = (0..100).collect::<Vec<usize>>();
    println!("{:?}", test_data);
    let pid = test_data[11];
    let qid = test_data[22];
    for val in test_data.iter_mut() {
        if *val == pid {
            *val = qid
        }
    }
    println!("{:?}", test_data)
}

#[test]
fn test_quick_union() {
    let mut uf = UnionFind::new(100);
    println!("{}", uf.to_text());
    uf.union(11, 22);
    println!("{}", uf.to_text());
    println!("{}", uf.connected(11, 22));
}

#[test]
fn scenario_merges() {
    let mut uf = UnionFind::new(5);
    for p in 0..5 {
        for q in 0..5 {
            assert_eq!(uf.connected(p, q), p == q);
        }
    }
    uf.union(1, 2);
    assert!(uf.connected(1, 2));
    assert!(!uf.connected(0, 3));
    uf.union(2, 3);
    assert!(uf.connected(1, 3));
    uf.union(0, 4);
    assert!(uf.connected(0, 4));
    assert!(!uf.connected(0, 1));
}

#[test]
fn scenario_self_union() {
    let mut uf = UnionFind::new(3);
    let before = uf.to_text();
    uf.union(1, 1);
    assert_eq!(uf.to_text(), before);
    assert!(uf.connected(1, 1));
    assert!(!uf.connected(0, 1));
    assert!(!uf.connected(1, 2));
    assert!(!uf.connected(0, 2));
}

#[test]
fn out_of_bounds_rejected() {
    let mut uf = UnionFind::new(3);
    assert_eq!(uf.try_union(3, 0), Err(UfError::IndexOutOfBounds));
    assert_eq!(uf.try_union(0, 17), Err(UfError::IndexOutOfBounds));
    assert_eq!(uf.try_connected(3, 1), Err(UfError::IndexOutOfBounds));
    assert_eq!(uf.try_connected(0, 1), Ok(false));
    assert_eq!(uf.try_union(0, 1), Ok(()));
    assert_eq!(uf.try_connected(0, 1), Ok(true));
}

#[test]
fn connectivity_relation_laws_hold_on_values() {
    let mut uf = UnionFind::new(6);
    uf.union(0, 1);
    uf.union(2, 3);
    assert!(uf.connected(0, 1));
    uf.union(1, 3);
    assert!(uf.connected(0, 1));
    assert!(uf.connected(2, 3));
    assert!(uf.connected(0, 3));
    assert!(uf.connected(3, 0));
    for i in 0..6 {
        assert!(uf.connected(i, i));
    }
    assert!(!uf.connected(0, 4));
    assert!(!uf.connected(4, 5));
}

#[test]
fn rendering_matches_parent_array() {
    let mut uf = UnionFind::new(3);
    assert_eq!(uf.to_text(), "0 1 2 ");
    uf.union(1, 2);
    assert_eq!(uf.to_text(), "0 2 2 ");
    uf.union(0, 1);
    assert_eq!(uf.to_text(), "2 2 2 ");
}

#[test]
fn rendering_multi_digit() {
    let uf = UnionFind::new(12);
    assert_eq!(uf.to_text(), "0 1 2 3 4 5 6 7 8 9 10 11 ");
}

#[test]
fn decimal_rendering() {
    assert_eq!(fundamental::decimal::decimal_string(0), "0");
    assert_eq!(fundamental::decimal::decimal_string(7), "7");
    assert_eq!(fundamental::decimal::decimal_string(10), "10");
    assert_eq!(fundamental::decimal::decimal_string(99), "99");
    assert_eq!(fundamental::decimal::decimal_string(305), "305");
    assert_eq!(fundamental::decimal::decimal_string(1234567890), "1234567890");
}

#[test]
fn quick_find_scenario() {
    let mut uf = QuickFind::new(5);
    for p in 0..5 {
        for q in 0..5 {
            assert_eq!(uf.connected(p, q), p == q);
        }
    }
    uf.union(1, 2);
    assert!(uf.connected(1, 2));
    assert!(uf.connected(2, 1));
    assert!(!uf.connected(0, 3));
    uf.union(2, 3);
    assert!(uf.connected(1, 3));
    uf.union(0, 4);
    assert!(uf.connected(0, 4));
    assert!(!uf.connected(0, 1));
}
