use initium::optional::Optional;

#[test]
fn optional_round_trips_through_option() {
    let some: Optional<u64> = Optional::from(Some(7));
    assert_eq!(some, Optional::Present(7));
    assert_eq!(some.into_option(), Some(7));
    let none: Optional<u64> = Optional::from(None);
    assert_eq!(none, Optional::Absent);
    assert_eq!(none.into_option(), None);
}

#[test]
fn optional_as_mut_changes_the_value_in_place() {
    let mut value = Optional::Present(1u64);
    if let Some(inner) = value.as_mut() {
        *inner = 5;
    }
    assert_eq!(value.as_ref(), Some(&5));
    let mut empty: Optional<u64> = Optional::Absent;
    assert!(empty.as_mut().is_none());
    assert!(empty.as_ref().is_none());
}
