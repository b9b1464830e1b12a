use ordering_probe::json::number::Number;

#[test]
fn number_from_i64() {
    let fixture = Number::from(123);
    match fixture {
        Number::Integer(x) => assert_eq!(x, 123),
        _ => unreachable!(),
    }
}
