use totp::credential::Credential;
use totp::error::TotpError;
use totp::operations::ImportOutcome;
use totp::otp::compute_totp;
use totp::registry::Registry;

const SECRET: &str = "JBSWY3DPEHPK3PXP";

fn names(reg: &Registry) -> Vec<String> {
    let mut v: Vec<String> = reg.entries().into_iter().map(|(n, _)| n).collect();
    v.sort();
    v
}

#[test]
fn add_plain_and_uri() {
    let mut reg = Registry::new();
    assert_eq!(reg.add("mail".to_string(), SECRET, 6, 30), Ok("mail".to_string()));
    let uri = "otpauth://totp/Example:alice@site.com?secret=JBSWY3DPEHPK3PXP&digits=8&period=60";
    assert_eq!(reg.add("ignored".to_string(), uri, 6, 30), Ok("Example:alice@site.com".to_string()));
    assert!(!reg.contains("ignored"));
    let c = reg.get("Example:alice@site.com").unwrap();
    assert_eq!((c.digits, c.period), (8, 60));
    assert_eq!(reg.len(), 2);
}

#[test]
fn add_twice_is_duplicate() {
    let mut reg = Registry::new();
    assert!(reg.add("mail".to_string(), SECRET, 6, 30).is_ok());
    let before = reg.entries();
    assert_eq!(reg.add("mail".to_string(), "GEZDGNBV", 8, 60), Err(TotpError::DuplicateName));
    let after = reg.entries();
    assert_eq!(before.len(), after.len());
    assert_eq!(after[0].0, "mail");
    assert_eq!(after[0].1.secret, SECRET);
    assert_eq!((after[0].1.digits, after[0].1.period), (6, 30));
}

#[test]
fn add_bad_uri_changes_nothing() {
    let mut reg = Registry::new();
    assert_eq!(reg.add("x".to_string(), "otpauth://hotp/x?secret=AB", 6, 30), Err(TotpError::UnsupportedMode));
    assert_eq!(reg.len(), 0);
}

#[test]
fn remove_absent_is_not_found() {
    let mut reg = Registry::new();
    reg.add("a".to_string(), SECRET, 6, 30).unwrap();
    assert_eq!(reg.remove("b"), Err(TotpError::NotFound));
    assert_eq!(names(&reg), vec!["a".to_string()]);
    assert_eq!(reg.remove("a"), Ok(()));
    assert_eq!(reg.len(), 0);
}

#[test]
fn rename_rules() {
    let mut reg = Registry::new();
    reg.add("a".to_string(), SECRET, 6, 30).unwrap();
    reg.add("b".to_string(), "GEZDGNBV", 8, 30).unwrap();
    assert_eq!(reg.rename("zz", "c".to_string()), Err(TotpError::NotFound));
    assert_eq!(reg.rename("a", "b".to_string()), Err(TotpError::DuplicateName));
    assert_eq!(reg.get("b").unwrap().secret, "GEZDGNBV");
    assert_eq!(reg.rename("a", "c".to_string()), Ok(()));
    assert_eq!(names(&reg), vec!["b".to_string(), "c".to_string()]);
    assert_eq!(reg.get("c").unwrap().secret, SECRET);
}

#[test]
fn get_code_and_list() {
    // A stored file may hold a credential that cannot give codes.
    let es = vec![
        ("a".to_string(), Credential::new(SECRET.to_string(), 6, 30)),
        ("bad".to_string(), Credential::new("!!".to_string(), 6, 0)),
    ];
    let reg = Registry::from_entries(&es).unwrap();
    let now = 1_699_999_995u64;
    assert_eq!(reg.get_code("a", now), compute_totp(SECRET, 6, 30, now));
    assert_eq!(reg.get_code("missing", now), Err(TotpError::NotFound));
    let rows = reg.list(now);
    assert_eq!(rows.len(), 2);
    for row in rows.iter() {
        if row.name == "a" {
            assert_eq!(row.code, compute_totp(SECRET, 6, 30, now));
            assert_eq!(row.remaining, Some(15));
        } else {
            assert_eq!(row.name, "bad");
            assert_eq!(row.code, Err(TotpError::Config));
            assert_eq!(row.remaining, None);
        }
    }
}

#[test]
fn import_reports_duplicate_and_keeps_the_rest() {
    let mut reg = Registry::new();
    reg.add("dup".to_string(), SECRET, 6, 30).unwrap();
    let lines = vec![
        "otpauth://totp/first?secret=AAAA".to_string(),
        "otpauth://totp/dup?secret=BBBB".to_string(),
        "otpauth://totp/third?secret=CCCC".to_string(),
        "a comment line".to_string(),
    ];
    let out = reg.import(&lines);
    assert_eq!(
        out,
        vec![
            ImportOutcome::Added,
            ImportOutcome::Failed(TotpError::DuplicateName),
            ImportOutcome::Added,
            ImportOutcome::Skipped
        ]
    );
    assert_eq!(names(&reg), vec!["dup".to_string(), "first".to_string(), "third".to_string()]);
    assert_eq!(reg.get("dup").unwrap().secret, SECRET);
    // The same import a second time gives the same report for every line.
    let mut again = Registry::new();
    again.add("dup".to_string(), SECRET, 6, 30).unwrap();
    assert_eq!(again.import(&lines), out);
}

#[test]
fn store_round_trip() {
    let mut reg = Registry::new();
    reg.add("a".to_string(), SECRET, 6, 30).unwrap();
    reg.add("b".to_string(), "GEZDGNBV", 8, 60).unwrap();
    reg.rename("a", "c".to_string()).unwrap();
    reg.import(&vec!["otpauth://totp/d?secret=DDDD&period=45".to_string()]);
    reg.remove("b").unwrap();
    let back = Registry::from_entries(&reg.entries()).unwrap();
    assert_eq!(names(&back), names(&reg));
    for (n, c) in reg.entries() {
        let d = back.get(&n).unwrap();
        assert_eq!((&d.secret, d.digits, d.period), (&c.secret, c.digits, c.period));
    }
}

#[test]
fn restore_policy() {
    assert_eq!(Registry::restore(false, None).unwrap().len(), 0);
    assert!(matches!(Registry::restore(true, None), Err(TotpError::CorruptStore)));
    let dup = vec![
        ("a".to_string(), Credential::new(SECRET.to_string(), 6, 30)),
        ("a".to_string(), Credential::new(SECRET.to_string(), 8, 30)),
    ];
    assert!(matches!(Registry::restore(true, Some(dup)), Err(TotpError::CorruptStore)));
    let one = vec![("a".to_string(), Credential::new(SECRET.to_string(), 6, 30))];
    assert_eq!(Registry::restore(true, Some(one)).unwrap().len(), 1);
}

#[test]
fn credential_codes() {
    let c = Credential::new("GEZDGNBVGY3TQOJQGEZDGNBVGY3TQOJQ".to_string(), 6, 30);
    assert_eq!(c.get_hotp(1), Ok("287082".to_string()));
    assert_eq!(c.get_totp(59), Ok("287082".to_string()));
    let d = c.duplicate();
    assert_eq!(d.secret, c.secret);
}

#[test]
fn add_refuses_unusable_credentials() {
    let mut reg = Registry::new();
    assert_eq!(reg.add("a".to_string(), SECRET, 6, 0), Err(TotpError::Config));
    assert_eq!(reg.add("a".to_string(), SECRET, 10, 30), Err(TotpError::Config));
    assert_eq!(reg.add("a".to_string(), "bad secret!", 6, 30), Err(TotpError::Decode));
    assert_eq!(reg.add("a".to_string(), "", 6, 30), Err(TotpError::Decode));
    assert_eq!(
        reg.add("a".to_string(), "otpauth://totp/x?secret=ABCD&digits=12", 6, 30),
        Err(TotpError::Config)
    );
    assert_eq!(reg.len(), 0);
    let out = reg.import(&vec!["otpauth://totp/x?secret=ABCD&digits=12".to_string()]);
    assert_eq!(out, vec![ImportOutcome::Failed(TotpError::Config)]);
    assert_eq!(reg.len(), 0);
}

#[test]
fn validate_credential() {
    assert_eq!(Credential::new(SECRET.to_string(), 6, 30).validate(), Ok(()));
    assert_eq!(Credential::new(SECRET.to_string(), 0, 30).validate(), Err(TotpError::Config));
    assert_eq!(Credential::new(SECRET.to_string(), 6, 0).validate(), Err(TotpError::Config));
    assert_eq!(Credential::new("1".to_string(), 6, 30).validate(), Err(TotpError::Decode));
}
