#[test]
fn rejects_malformed_headers() {}

#[test]
fn rejects_expected_but_no_body() {}
