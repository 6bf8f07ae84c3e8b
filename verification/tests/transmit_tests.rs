use ddgen::transmit::{after_header, put_provided, PollAction};

#[test]
fn provided_bytes_follow_the_serialized_ones() {
    let mut data = [1u8, 2, 0, 0, 0, 9];
    let mut size = 2;
    for byte in [7u8, 8, 6] {
        size = put_provided(&mut data, size, byte);
    }
    assert_eq!(size, 5);
    assert_eq!(data, [1, 2, 7, 8, 6, 9]);
}

#[test]
fn polling_reads_the_rest_once_the_condition_holds() {
    assert_eq!(after_header(true), PollAction::ReadRest);
    assert_eq!(after_header(false), PollAction::ReadHeaderAgain);
}
