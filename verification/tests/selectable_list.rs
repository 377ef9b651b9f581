use log_highlight::SelectableList;

#[test]
fn select_next_cycles_through_indices() {
    let mut list: SelectableList<i32> = SelectableList::with_items(vec![10, 20, 30]);
    assert_eq!(list.selected(), None);
    list.select_next();
    assert_eq!(list.selected(), Some(0));
    list.select_next();
    assert_eq!(list.selected(), Some(1));
    list.select_next();
    assert_eq!(list.selected(), Some(2));
    list.select_next();
    assert_eq!(list.selected(), Some(0));
    list.select_next();
    assert_eq!(list.selected(), Some(1));
}

#[test]
fn select_previous_wraps_from_front() {
    let mut list: SelectableList<i32> = SelectableList::with_items(vec![10, 20, 30]);
    list.select_next();
    assert_eq!(list.selected(), Some(0));
    list.select_previous();
    assert_eq!(list.selected(), Some(2));
    list.select_previous();
    assert_eq!(list.selected(), Some(1));
}

#[test]
fn select_previous_from_none_selects_front() {
    let mut list: SelectableList<i32> = SelectableList::with_items(vec![10, 20, 30]);
    list.select_previous();
    assert_eq!(list.selected(), Some(0));
}

#[test]
fn empty_list_selection_is_noop() {
    let mut list: SelectableList<i32> = SelectableList::new();
    list.select_next();
    assert_eq!(list.selected(), None);
    list.select_previous();
    assert_eq!(list.selected(), None);
}

#[test]
fn clear_selection_resets() {
    let mut list: SelectableList<i32> = SelectableList::with_items(vec![1, 2]);
    list.select_next();
    assert_eq!(list.selected(), Some(0));
    list.clear_selection();
    assert_eq!(list.selected(), None);
}

#[test]
fn append_grows_and_keeps_selection() {
    let mut list: SelectableList<&str> = SelectableList::new();
    list.append("a");
    list.append("b");
    assert_eq!(list.len(), 2);
    list.select_next();
    list.append("c");
    assert_eq!(list.selected(), Some(0));
    assert_eq!(list.items(), &vec!["a", "b", "c"]);
}

#[test]
fn evict_to_keeps_newest_in_order() {
    let mut list: SelectableList<&str> = SelectableList::with_items(vec!["a", "b", "c", "d"]);
    list.evict_to(2);
    assert_eq!(list.items(), &vec!["c", "d"]);
}

#[test]
fn evict_to_clears_out_of_range_selection() {
    let mut list: SelectableList<i32> = SelectableList::with_items(vec![1, 2, 3]);
    list.select_next();
    list.select_next();
    list.select_next();
    assert_eq!(list.selected(), Some(2));
    list.evict_to(1);
    assert_eq!(list.items(), &vec![3]);
    assert_eq!(list.selected(), None);
}

#[test]
fn evict_to_keeps_valid_selection() {
    let mut list: SelectableList<i32> = SelectableList::with_items(vec![1, 2, 3]);
    list.select_next();
    assert_eq!(list.selected(), Some(0));
    list.evict_to(2);
    assert_eq!(list.items(), &vec![2, 3]);
    assert_eq!(list.selected(), Some(0));
}

#[test]
fn evict_to_noop_when_under_bound() {
    let mut list: SelectableList<i32> = SelectableList::with_items(vec![1, 2]);
    list.evict_to(5);
    assert_eq!(list.items(), &vec![1, 2]);
}
