use fundamental::double_linked_list::DoubleLinkedList;
use fundamental::linked_list::LinkedList;

#[test]
fn test_linked_list() {
    let list_of_nums = LinkedList::new().append(1).append(2);
    println!("nums : {:?}", list_of_nums);

    let list_of_str = LinkedList::new().append("foo").append("bar");
    println!("strings : {:?}", list_of_str);
}

#[test]
fn test_double_linked_list() {
    let list_of_nums = DoubleLinkedList::new().append(1).append(2).append(3);
    println!("nums: {:?}", list_of_nums)
}

#[test]
fn linked_list_shares_its_tail() {
    let base = LinkedList::new().append(1).append(2);
    let longer = base.append(3);
    assert_eq!(base.get(0), Some(&2));
    assert_eq!(base.get(1), Some(&1));
    assert_eq!(base.get(2), None);
    assert_eq!(longer.get(0), Some(&3));
    assert_eq!(longer.get(1), Some(&2));
    assert_eq!(longer.get(2), Some(&1));
    assert_eq!(longer.get(3), None);
}

#[test]
fn double_linked_list_moves_into_result() {
    let mut base = DoubleLinkedList::new().append(1).append(2);
    let longer = base.append(3);
    assert_eq!(longer.get(0), Some(&3));
    assert_eq!(longer.get(1), Some(&2));
    assert_eq!(longer.get(2), Some(&1));
    assert_eq!(longer.get(3), None);
    assert_eq!(base.get(0), None);
}
