use relay_rank::selected_ranks;
use relay_rank::tor_status::RelayId;

fn id(b: u8) -> RelayId {
    RelayId::new([b; 20])
}

#[test]
fn ranking_without_exclusion_list_prints_every_rank() {
    let ordered = vec![id(3), id(1), id(2)];
    assert_eq!(selected_ranks(&ordered, None), vec![1, 2, 3]);
    assert_eq!(selected_ranks(&[], None), Vec::<usize>::new());
}

#[test]
fn ranking_with_exclusion_list_keeps_rank_among_all_relays() {
    let ordered = vec![id(3), id(1), id(2), id(7)];
    let excluded = vec![id(2), id(9), id(3)];
    assert_eq!(selected_ranks(&ordered, Some(&excluded)), vec![1, 3]);
}

#[test]
fn ranking_with_empty_exclusion_list_prints_nothing() {
    let ordered = vec![id(3), id(1)];
    assert_eq!(selected_ranks(&ordered, Some(&Vec::new())), Vec::<usize>::new());
}
