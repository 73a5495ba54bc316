use rv_netshare::order::sorted_order;

#[test]
fn sorts_by_rank_then_text_then_position() {
    let keys = vec![
        (1i64, "b".to_string()),
        (0i64, "z".to_string()),
        (1i64, "a".to_string()),
        (0i64, "z".to_string()),
        (-5i64, "m".to_string()),
    ];
    assert_eq!(sorted_order(&keys), vec![4, 1, 3, 2, 0]);
}

#[test]
fn texts_compare_by_code_point() {
    let keys = vec![
        (0i64, "ab".to_string()),
        (0i64, "a".to_string()),
        (0i64, "B".to_string()),
        (0i64, "é".to_string()),
        (0i64, "".to_string()),
    ];
    assert_eq!(sorted_order(&keys), vec![4, 2, 1, 0, 3]);
}

#[test]
fn empty_input() {
    assert_eq!(sorted_order(&vec![]), Vec::<usize>::new());
}
