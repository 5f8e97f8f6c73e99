use analysis::api::just_parse;
use analysis::parser::model::Status;
use analysis::{
    AppLogErrorKind, AppLogJournalKind, AppLogKind, AppLogTraceKind, LogKind, SystemLogErrorKind,
    SystemLogKind, SystemLogTraceKind,
};

#[test]
fn system_trace_send_request() {
    assert_eq!(
        just_parse::<LogKind>(r#"System::Trace SendRequest "GET /""#),
        Ok((
            "",
            LogKind::System(SystemLogKind::Trace(SystemLogTraceKind::SendRequest(
                "GET /".to_string()
            )))
        ))
    );
}

#[test]
fn system_error_access_denied_with_spaces() {
    assert_eq!(
        just_parse::<LogKind>("  System::Error   AccessDenied  \"no\"  tail"),
        Ok((
            "tail",
            LogKind::System(SystemLogKind::Error(SystemLogErrorKind::AccessDenied(
                "no".to_string()
            )))
        ))
    );
}

#[test]
fn app_error_and_trace() {
    assert_eq!(
        just_parse::<LogKind>(r#"App::Error LackOf "money""#),
        Ok((
            "",
            LogKind::App(AppLogKind::Error(AppLogErrorKind::LackOf("money".to_string())))
        ))
    );
    assert_eq!(
        just_parse::<LogKind>(r#"App::Trace GetResponse "200 \"OK\"""#),
        Ok((
            "",
            LogKind::App(AppLogKind::Trace(AppLogTraceKind::GetResponse(
                "200 \"OK\"".to_string()
            )))
        ))
    );
}

#[test]
fn journal_keys_in_either_order() {
    let expected = LogKind::App(AppLogKind::Journal(AppLogJournalKind::CreateUser {
        user_id: "Bob".to_string(),
        authorized_capital: 3,
    }));
    assert_eq!(
        just_parse::<LogKind>(r#"App::Journal CreateUser{"user_id":"Bob","authorized_capital":3,}"#),
        Ok(("", expected.clone()))
    );
    assert_eq!(
        just_parse::<LogKind>(
            r#"App::Journal CreateUser{ "authorized_capital" : 3 , "user_id" : "Bob" , }"#
        ),
        Ok(("", expected))
    );
}

#[test]
fn journal_register_and_unregister_asset() {
    assert_eq!(
        just_parse::<AppLogJournalKind>(
            r#"Journal RegisterAsset{"liquidity":0x10,"user_id":"Bob","asset_id":"milk",}"#
        ),
        Ok((
            "",
            AppLogJournalKind::RegisterAsset {
                asset_id: "milk".to_string(),
                user_id: "Bob".to_string(),
                liquidity: 16,
            }
        ))
    );
    assert_eq!(
        just_parse::<AppLogJournalKind>(
            r#"Journal UnregisterAsset{"user_id":"Bob","asset_id":"milk",}"#
        ),
        Ok((
            "",
            AppLogJournalKind::UnregisterAsset {
                asset_id: "milk".to_string(),
                user_id: "Bob".to_string(),
            }
        ))
    );
    assert_eq!(
        just_parse::<AppLogJournalKind>(r#"Journal DeleteUser{"user_id":"Bob",}"#),
        Ok((
            "",
            AppLogJournalKind::DeleteUser {
                user_id: "Bob".to_string()
            }
        ))
    );
}

#[test]
fn journal_refuses_zero_and_missing_comma() {
    assert_eq!(
        just_parse::<AppLogJournalKind>(
            r#"Journal CreateUser{"user_id":"Bob","authorized_capital":0,}"#
        ),
        Err(())
    );
    assert_eq!(
        just_parse::<AppLogJournalKind>(r#"Journal DeleteUser{"user_id":"Bob"}"#),
        Err(())
    );
}

#[test]
fn unknown_records_are_refused() {
    assert_eq!(just_parse::<LogKind>("System::Info x"), Err(()));
    assert_eq!(just_parse::<LogKind>(""), Err(()));
}

#[test]
fn status_ok_and_err() {
    assert_eq!(just_parse::<Status>("Ok rest"), Ok((" rest", Status::Success)));
    assert_eq!(
        just_parse::<Status>(r#"Err("boom")"#),
        Ok(("", Status::Failure("boom".to_string())))
    );
    assert_eq!(just_parse::<Status>("Fine"), Err(()));
}
