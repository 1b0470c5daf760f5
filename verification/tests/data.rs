use chat::data::Data;
use std::sync::Arc;

#[test]
fn data_leads_to_its_value() {
    let data = Data::new(String::from("state"));
    assert_eq!(**data, "state");
    let other = data.clone();
    assert_eq!(**other, "state");
    assert!(Arc::ptr_eq(&data, &other));
    assert_eq!(Arc::strong_count(&data), 2);
}

#[test]
fn data_from_a_pointer() {
    let pointer = Arc::new(5u32);
    let data = Data::from(Arc::clone(&pointer));
    assert!(Arc::ptr_eq(&pointer, &data));
    assert_eq!(**data, 5);
}

#[test]
fn data_of_an_unsized_value() {
    let pointer: Arc<str> = Arc::from("text");
    let data: Data<str> = Data::from(pointer);
    let other = data.clone();
    assert_eq!(&**other, "text");
}
