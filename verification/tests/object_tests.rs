use conlife::{LoadObjectError, Object};

#[test]
fn load_from_empty_string_throws_error() {
    let expected = Err(LoadObjectError::NoCoordinatesFound);
    let actual = Object::from_string("");
    assert_eq!(expected, actual);
}

#[test]
fn newlines_no_error() {
    let glider_str = "(0,2)\n(1,2)\n(2,2)\n(1,0)\n(2,1)";
    let glider = Object::from_string(glider_str);
    assert!(glider.is_ok());
    let glider = glider.unwrap();
    assert_eq!(
        glider.coordinates,
        vec![(0, 2), (1, 2), (2, 2), (1, 0), (2, 1)]
    );
}

#[test]
fn whitespace_around_comma() {
    let object_str = "(0, 2) (1,3)";
    let object = Object::from_string(object_str);
    assert!(object.is_ok());
    let object = object.unwrap();
    assert_eq!(object.coordinates, vec![(0, 2), (1, 3)]);
}

#[test]
fn repeated_coordinates() {
    let object_str = "(0,2) (3,4) (0,2)";
    let object = Object::from_string(object_str);
    assert_eq!(Err(LoadObjectError::DuplicateCoordinate), object);
}

#[test]
fn object_load_glider() {
    let glider = Object::from_string("(0,2) (1,2) (2,2) (1,0) (2,1)");
    assert!(glider.is_ok());
    assert_eq!(
        glider.unwrap().coordinates,
        vec![(0, 2), (1, 2), (2, 2), (1, 0), (2, 1)]
    );
}

#[test]
fn whitespace_only_is_no_coordinates() {
    let object = Object::from_string("  \n\t \r ");
    assert_eq!(object, Err(LoadObjectError::NoCoordinatesFound));
}

#[test]
fn parens_are_ignored_anywhere() {
    let object = Object::from_string("0,2 ((1,3))");
    assert_eq!(object.unwrap().coordinates, vec![(0, 2), (1, 3)]);
}

#[test]
fn letters_are_bad_input() {
    assert_eq!(Object::from_string("abc"), Err(LoadObjectError::BadInput));
}

#[test]
fn pair_missing_y_is_bad_input() {
    assert_eq!(Object::from_string("(12)"), Err(LoadObjectError::BadInput));
    assert_eq!(Object::from_string("(4,)"), Err(LoadObjectError::BadInput));
}

#[test]
fn three_numbers_in_a_pair_is_bad_input() {
    assert_eq!(Object::from_string("(1,2,3)"), Err(LoadObjectError::BadInput));
}

#[test]
fn split_number_is_bad_input() {
    assert_eq!(Object::from_string("(1 2,3)"), Err(LoadObjectError::BadInput));
}

#[test]
fn oversized_number_is_bad_input() {
    let object = Object::from_string("(99999999999999999999999999,1)");
    assert_eq!(object, Err(LoadObjectError::BadInput));
}

#[test]
fn whitespace_on_both_sides_of_comma() {
    let object = Object::from_string("(1 , 2)");
    assert_eq!(object.unwrap().coordinates, vec![(1, 2)]);
}

#[test]
fn duplicate_found_before_later_bad_token() {
    // the scan reads left to right: the duplicate third pair is hit before
    // the malformed fourth token
    let object = Object::from_string("(0,2) (3,4) (0,2) x");
    assert_eq!(object, Err(LoadObjectError::DuplicateCoordinate));
}
