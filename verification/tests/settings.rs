use local_httpd::fs::FilePath;
use local_httpd::settings::{Address, Arguments, Bind, Taken};

fn take(arguments: &mut Arguments, argument: &str) -> Taken {
    arguments.take(argument.as_bytes().to_vec())
}

#[test]
fn nothing_given() {
    let arguments = Arguments::new();
    assert!(!arguments.help);
    assert!(arguments.root.is_none());
    let settings = arguments.into_settings(FilePath::new(b"/srv".to_vec(), Some("srv".to_string())));
    assert!(!settings.open);
    assert!(settings.webdav);
    assert_eq!(Bind::Loopback, settings.bind);
    assert_eq!(b"/srv", settings.root.as_bytes());
    assert_eq!(Some("srv"), settings.root.file_name());
}

#[test]
fn open_flags_take_turns() {
    let mut arguments = Arguments::new();
    assert_eq!(Taken::Quietly, take(&mut arguments, "--open"));
    assert!(arguments.open);
    assert_eq!(Taken::Quietly, take(&mut arguments, "--no-open"));
    assert!(!arguments.open);
    assert_eq!(Taken::Quietly, take(&mut arguments, "--open"));
    let settings = arguments.into_settings(FilePath::new(b".".to_vec(), None));
    assert!(settings.open);
}

#[test]
fn help_is_printed_once() {
    let mut arguments = Arguments::new();
    assert_eq!(Taken::PrintHelp, take(&mut arguments, "--help"));
    assert!(arguments.help);
    assert_eq!(Taken::Quietly, take(&mut arguments, "--help"));
    assert!(arguments.help);
}

#[test]
fn last_allow_flag_applies_with_a_warning() {
    let mut arguments = Arguments::new();
    assert_eq!(Taken::Quietly, take(&mut arguments, "--allow-all-ipv4"));
    assert_eq!(Some(Bind::AllIpv4), arguments.bind);
    assert_eq!(Taken::WarnRepeatedAllow, take(&mut arguments, "--allow-all-ipv6"));
    assert_eq!(Some(Bind::AllIpv6), arguments.bind);
    assert_eq!(Taken::WarnRepeatedAllow, take(&mut arguments, "--allow-all-ipv6"));
    let settings = arguments.into_settings(FilePath::new(b".".to_vec(), None));
    assert_eq!(Bind::AllIpv6, settings.bind);
}

#[test]
fn unknown_flags_are_not_taken() {
    let mut arguments = Arguments::new();
    assert_eq!(Taken::UnrecognizedFlag, take(&mut arguments, "--verbose"));
    assert_eq!(Taken::UnrecognizedFlag, take(&mut arguments, "--"));
    assert_eq!(Taken::UnrecognizedFlag, take(&mut arguments, "--Open"));
    assert_eq!(Taken::UnrecognizedFlag, take(&mut arguments, "--open "));
    assert!(!arguments.open);
    assert!(arguments.root.is_none());
}

#[test]
fn one_root_is_taken() {
    let mut arguments = Arguments::new();
    assert_eq!(Taken::Quietly, take(&mut arguments, "-"));
    assert_eq!(Some(b"-".to_vec()), arguments.root);
    assert_eq!(Taken::SecondRoot, take(&mut arguments, "www"));
    assert_eq!(Some(b"-".to_vec()), arguments.root);
    let mut arguments = Arguments::new();
    assert_eq!(Taken::Quietly, arguments.take(b"w\xffw".to_vec()));
    assert_eq!(Some(b"w\xffw".to_vec()), arguments.root);
    assert_eq!(Taken::Quietly, take(&mut arguments, "--open"));
}

#[test]
fn addresses_to_listen_at_and_to_browse() {
    assert_eq!(Address::Loopback99, Bind::Loopback.listen_address());
    assert_eq!(Address::UnspecifiedV4, Bind::AllIpv4.listen_address());
    assert_eq!(Address::UnspecifiedV6, Bind::AllIpv6.listen_address());
    assert_eq!(Address::Loopback99, Bind::Loopback.browse_address());
    assert_eq!(Address::LocalhostV4, Bind::AllIpv4.browse_address());
    assert_eq!(Address::LocalhostV6, Bind::AllIpv6.browse_address());
}
