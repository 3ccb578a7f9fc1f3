use light_tool::array;

#[test]
fn test_duplicate() {
    let input1 = vec![1, 2, 2, 3, 4, 4, 5];
    let expected1 = vec![1, 2, 3, 4, 5];
    assert_eq!(array::duplicate(&input1), expected1);

    let input2 = vec!["apple", "banana", "apple", "orange", "banana"];
    let expected2 = vec!["apple", "banana", "orange"];
    assert_eq!(array::duplicate(&input2), expected2);
}

#[test]
fn test_duplicate_keeps_first_occurrence_order() {
    let input = vec![3, 1, 3, 2, 1, 3];
    assert_eq!(array::duplicate(&input), vec![3, 1, 2]);
    let empty: Vec<u8> = Vec::new();
    assert_eq!(array::duplicate(&empty), empty);
}
