use blockcheck::options::is_socks5;
use blockcheck::options::Mode;
use blockcheck::options::Opts;

#[test]
fn mode_filter() {
    let auto = Mode::Auto;
    let rdp = Mode::Rdp;
    let web = Mode::Web;

    assert!(auto.selected(Mode::Auto));
    assert!(auto.selected(Mode::Rdp));
    assert!(auto.selected(Mode::Web));

    assert!(rdp.selected(Mode::Auto));
    assert!(rdp.selected(Mode::Rdp));
    assert!(!rdp.selected(Mode::Web));

    assert!(web.selected(Mode::Auto));
    assert!(!web.selected(Mode::Rdp));
    assert!(web.selected(Mode::Web));
}

#[test]
fn socks5_prefix_accepted() {
    assert!(is_socks5("socks5://127.0.0.1:9050").is_ok());
    assert!(is_socks5("socks5://").is_ok());
}

#[test]
fn socks5_prefix_required() {
    assert!(is_socks5("http://example.test").is_err());
    assert!(is_socks5("socks4://x").is_err());
    assert!(is_socks5("").is_err());
    assert!(is_socks5("socks5:/").is_err());
}

#[test]
fn default_options() {
    let opts = Opts::default();
    assert!(opts.files.is_empty());
    assert!(opts.targets.is_empty());
    assert_eq!(opts.mode, Mode::Auto);
    assert_eq!(opts.rdp_timeout, 0);
    assert_eq!(opts.threads, 0);
    assert!(opts.log_file.is_none());
    assert!(!opts.silent);
    assert_eq!(opts.verbose, 0);
    assert!(!opts.test_import);
    assert_eq!(Mode::default(), Mode::Auto);
}
