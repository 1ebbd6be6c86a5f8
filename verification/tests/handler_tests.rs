use chaos::handler::MsgIds;

#[test]
fn identifiers_count_up_from_one() {
    let mut ids = MsgIds::new();
    let drawn: Vec<usize> = (0..5).map(|_| ids.next()).collect();
    assert_eq!(drawn, vec![1, 2, 3, 4, 5]);
}

#[test]
fn sources_are_independent() {
    let mut a = MsgIds::new();
    let mut b = MsgIds::new();
    assert_eq!(a.next(), 1);
    assert_eq!(a.next(), 2);
    assert_eq!(b.next(), 1);
}
