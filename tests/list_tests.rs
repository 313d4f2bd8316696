use persistent_list::{create_i32_list, LinkedList};
use std::rc::Rc;

#[test]
fn test_length() {
    let list = create_i32_list(0, 10);
    assert!(list.length() == 10);
    let list2 = create_i32_list(0, 15);
    assert!(list2.length() == 15);
}

#[test]
fn test_get() {
    let list = create_i32_list(0, 10);
    for x in 0..list.length() {
        // unwrap will panic if the node isn't retrieved properly
        assert!(list.get(x).unwrap().data == x);
    }
}

#[test]
fn test_get_oob() {
    let list = create_i32_list(0, 10);
    let get_val = list.get(15);
    match get_val {
        Some(_) => panic!("Index {} should be out of bounds!", 15),
        None => (),
    }
}

#[test]
fn test_find_exists() {
    let list = create_i32_list(0, 10);
    for x in 0..list.length() {
        assert!(list.find(x).unwrap() == x);
    }
}

#[test]
fn test_find_not_exists() {
    let list = create_i32_list(0, 10);
    let idx = list.find(15);
    match idx {
        Some(_) => panic!("Should not find 15"),
        None => (),
    }
}

#[test]
fn test_eq() {
    let list = create_i32_list(0, 10);
    let list2 = create_i32_list(0, 10);
    assert!(list == list2);
    let list3 = Rc::new(LinkedList { data: 15, next: Some(list2) });
    assert!(list != list3);
}

#[test]
fn test_clone() {
    let list = create_i32_list(0, 10);
    let list2 = list.clone();
    assert!(list2.length() == list.length());
    assert!(list == list2);
}

#[test]
fn test_insert_val() {
    let insert_val = 15;
    let list = create_i32_list(0, 10);
    let list2 = list.insert_val(insert_val);
    assert!(list.length() + 1 == list2.length());
    let find_idx = list2.find(insert_val);
    let get_val = match find_idx {
        Some(n) => list2.get(n),
        None => panic!("Should have found the value"),
    };
    match get_val {
        Some(ref n) => assert!(n.data == insert_val),
        None => panic!("Index should not be out of bounds"),
    }
}

#[test]
fn test_delete_found() {
    let del_value = 5;
    let list = create_i32_list(0, 10);
    let del_list = list.delete_val(&del_value);
    match del_list {
        Some(ref n) => {
            let find_idx = n.find(del_value);
            match find_idx {
                Some(_) => panic!("Should not find deleted value"),
                None => (),
            }
            assert!(n.length() == list.length() - 1)
        }
        None => panic!("Should successfully return a value!"),
    }
}

#[test]
fn test_delete_not_found() {
    let del_value = 15;
    let list = create_i32_list(0, 10);
    let del_list = list.delete_val(&del_value);
    match del_list {
        Some(ref n) => {
            let find_idx = n.find(del_value);
            match find_idx {
                Some(_) => panic!("Should not find value, it was never in the list"),
                None => (),
            }
            assert!(n.length() == list.length())
        }
        None => panic!("Should successfully return a value!"),
    }
}

#[test]
fn test_delete_only_element() {
    let list = Rc::new(LinkedList { data: 0, next: None });
    let del_list = list.delete_val(&0);
    match del_list {
        Some(_) => panic!("The only element should have been deleted!"),
        None => (),
    }
}
