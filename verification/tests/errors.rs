use openshmem::error::{Error, PmixError, UccError, UccStatus, UcsStatus};

#[test]
fn pmix_error_converts_and_displays() {
    let error = Error::from(PmixError::Error);
    assert!(matches!(&error, Error::Pmix(PmixError::Error)));
    assert!(error.message("PMIX_ERROR").contains("pmix error"));
}

#[test]
fn ucx_error_converts_and_displays_status_code() {
    let invalid_param = UcsStatus { code: -5 };
    let error = Error::from(invalid_param);
    assert!(matches!(&error, Error::Ucx(UcsStatus { code: -5 })));
    assert!(error.message("UCS_ERR_INVALID_PARAM").contains("-5"));
}

#[test]
fn ucc_error_converts_only_failures() {
    let invalid_param = UccError { code: -3, failure: true };
    let error = Error::from(invalid_param);
    assert!(matches!(
        error,
        Error::Ucc(UccStatus::Known(UccError { code: -3, failure: true }))
    ));
    let in_progress = UccError { code: 1, failure: false };
    assert!(matches!(Error::from(in_progress), Error::Internal(_)));
}

#[test]
fn success_is_not_a_failure() {
    assert_eq!(
        Error::from(PmixError::Success),
        Error::Internal("PMIx success was returned where an error was expected")
    );
    assert_eq!(
        Error::from(UcsStatus { code: 0 }),
        Error::Internal("UCX success was returned where an error was expected")
    );
    assert_eq!(
        Error::from(UccError { code: 0, failure: false }),
        Error::Internal("UCC informational status was returned where an error was expected")
    );
    assert_eq!(Error::from(PmixError::Status(-46)), Error::Pmix(PmixError::Status(-46)));
}

#[test]
fn messages_are_exact() {
    assert_eq!(Error::Pmix(PmixError::Error).message("ERROR"), "pmix error: ERROR");
    assert_eq!(
        Error::Ucx(UcsStatus { code: -128 }).message("UCS_ERR_LAST"),
        "ucx error: UCS_ERR_LAST (code -128)"
    );
    assert_eq!(
        Error::Ucc(UccStatus::Unknown(i32::MIN)).message("unknown"),
        "ucc error: unknown (code -2147483648)"
    );
    assert_eq!(
        Error::Ucc(UccStatus::Known(UccError { code: 1203, failure: true })).message("x"),
        "ucc error: x (code 1203)"
    );
    assert_eq!(Error::Usage("bad argument").message(""), "usage error: bad argument");
    assert_eq!(Error::NotInitialized.message("unused"), "openshmem not initialized");
    assert_eq!(Error::AlreadyInitialized.message(""), "openshmem already initialized");
    assert_eq!(Error::Internal("broken").message(""), "internal error: broken");
    assert_eq!(UccStatus::Unknown(-777).to_raw(), -777);
    assert_eq!(UccStatus::Known(UccError { code: 0, failure: false }).to_raw(), 0);
}
