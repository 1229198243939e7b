use boa::builtins::object::gcobject::{BorrowError, BorrowMutError, GcObject, Heap};
use boa::builtins::object::Object;
use boa::builtins::property::PropertyKey;
use boa::builtins::value::Value;

#[test]
fn handles_are_equal_by_allocation_not_by_content() {
    let mut heap = Heap::new();
    let a = GcObject::new(Object::default(), &mut heap);
    let b = GcObject::new(Object::default(), &mut heap);
    let a_again = a;
    assert!(GcObject::equals(&a, &a_again));
    assert!(!GcObject::equals(&a, &b));
    assert_eq!(a, a_again);
    assert_ne!(a, b);
    a.borrow(&mut heap);
    b.borrow(&mut heap);
    assert_eq!(a.get(&heap), b.get(&heap));
    a.release(&mut heap);
    b.release(&mut heap);
    assert_eq!(heap.len(), 2);
}

#[test]
fn writer_excludes_every_other_borrow_until_release() {
    let mut heap = Heap::new();
    let cell = GcObject::new(Object::default(), &mut heap);
    assert_eq!(cell.try_borrow_mut(&mut heap), Ok(()));
    assert!(cell.is_borrowed_mut(&heap));
    assert_eq!(cell.try_borrow(&mut heap), Err(BorrowError));
    assert_eq!(cell.try_borrow_mut(&mut heap), Err(BorrowMutError));
    assert_eq!(cell.readers(&heap), 0);
    cell.release_mut(&mut heap);
    assert!(!cell.is_borrowed_mut(&heap));
    assert_eq!(cell.try_borrow(&mut heap), Ok(()));
}

#[test]
fn readers_share_a_cell() {
    let mut heap = Heap::new();
    let cell = GcObject::new(Object::default(), &mut heap);
    assert_eq!(cell.try_borrow(&mut heap), Ok(()));
    assert_eq!(cell.try_borrow(&mut heap), Ok(()));
    assert_eq!(cell.try_borrow(&mut heap), Ok(()));
    assert_eq!(cell.readers(&heap), 3);
    assert_eq!(cell.try_borrow_mut(&mut heap), Err(BorrowMutError));
    cell.release(&mut heap);
    cell.release(&mut heap);
    assert_eq!(cell.try_borrow_mut(&mut heap), Err(BorrowMutError));
    cell.release(&mut heap);
    assert_eq!(cell.try_borrow_mut(&mut heap), Ok(()));
}

#[test]
fn writer_changes_the_object_of_the_cell() {
    let mut heap = Heap::new();
    let cell = GcObject::new(Object::default(), &mut heap);
    cell.borrow_mut(&mut heap);
    cell.get_mut(&mut heap).insert_field(PropertyKey::string("answer"), Value::Integer(42));
    cell.release_mut(&mut heap);
    cell.borrow(&mut heap);
    let found = cell.get(&heap).get_own_property(&PropertyKey::string("answer"));
    assert_eq!(found.map(|property| property.value()), Some(Value::Integer(42)));
    cell.release(&mut heap);
}

#[test]
fn borrow_errors_have_their_messages() {
    assert_eq!(BorrowError.to_string(), "Object already mutably borrowed");
    assert_eq!(BorrowMutError.to_string(), "Object already borrowed");
}
