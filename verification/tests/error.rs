use roster_sync::error::Error;

#[test]
fn each_error_has_its_text() {
    assert_eq!(Error::TransportFailure("connection reset".to_string()).message(), "connection reset");
    assert_eq!(
        Error::AuthenticationExpired.message(),
        "Failed to scrape members, cookie not providing authenticated access"
    );
    assert_eq!(
        Error::ReconciliationUnavailable("database is locked".to_string()).message(),
        "database is locked"
    );
    assert_eq!(Error::NotFound.message(), "Query returned no rows");
    assert_eq!(
        Error::BootstrapFailed.message(),
        "Failed to scrape members with known cookies, try obtaining another one"
    );
}
