use sleepview::produce_json;

#[test]
fn json_all_fields() {
    let values: [i128; 5] = [120, 5, 4, 3, 2];
    assert_eq!(
        produce_json(values, 5, 0),
        "{ \"days\": \"2\", \"hours\": \"3\", \"minutes\": \"4\", \"seconds\": \"5\", \"milliseconds\": \"120\" }"
    );
}

#[test]
fn json_two_fields() {
    let values: [i128; 5] = [7, 59, 0, 0, 0];
    assert_eq!(
        produce_json(values, 2, 0),
        "{ \"seconds\": \"59\", \"milliseconds\": \"7\" }"
    );
}

#[test]
fn json_resolution_drops_fine_fields() {
    let values: [i128; 5] = [999, 30, 15, 1, 0];
    assert_eq!(
        produce_json(values, 4, 2),
        "{ \"hours\": \"1\", \"minutes\": \"15\" }"
    );
}

#[test]
fn json_nothing_shown() {
    let values: [i128; 5] = [1, 2, 3, 4, 5];
    assert_eq!(produce_json(values, 3, 3), "{}");
}

#[test]
fn json_negative_and_large_values() {
    let values: [i128; 5] = [-42, 0, 0, 0, 123456];
    assert_eq!(
        produce_json(values, 5, 4),
        "{ \"days\": \"123456\" }"
    );
    assert_eq!(
        produce_json(values, 1, 0),
        "{ \"milliseconds\": \"-42\" }"
    );
}

#[test]
fn json_extreme_values() {
    let values: [i128; 5] = [i128::MIN, i128::MAX, 0, 0, 0];
    assert_eq!(
        produce_json(values, 2, 0),
        format!(
            "{{ \"seconds\": \"{}\", \"milliseconds\": \"{}\" }}",
            i128::MAX,
            i128::MIN
        )
    );
}
