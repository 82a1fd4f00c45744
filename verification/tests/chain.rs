use proxy_state::chain::split_certificate_chain;

#[test]
fn a_chain_is_split_after_each_end_marker() {
    let chain = "-----BEGIN CERTIFICATE-----\nAAEC\n-----END CERTIFICATE-----\n\
                 -----BEGIN CERTIFICATE-----\nAwQF\n-----END CERTIFICATE-----\n";
    assert_eq!(
        split_certificate_chain(chain),
        vec![
            String::from("-----BEGIN CERTIFICATE-----\nAAEC\n-----END CERTIFICATE-----"),
            String::from("-----BEGIN CERTIFICATE-----\nAwQF\n-----END CERTIFICATE-----"),
        ]
    );
}

#[test]
fn white_space_around_a_certificate_is_left_out() {
    let chain = " \t\r\n-----BEGIN CERTIFICATE-----\nAAEC\n-----END CERTIFICATE-----\
                 \u{a0}\u{2003}\n\n x -----END CERTIFICATE-----";
    assert_eq!(
        split_certificate_chain(chain),
        vec![
            String::from("-----BEGIN CERTIFICATE-----\nAAEC\n-----END CERTIFICATE-----"),
            String::from("x -----END CERTIFICATE-----"),
        ]
    );
}

#[test]
fn what_follows_the_last_marker_is_left_out() {
    let chain = "one-----END CERTIFICATE-----two-----END CERTIFICATE----";
    assert_eq!(
        split_certificate_chain(chain),
        vec![String::from("one-----END CERTIFICATE-----")]
    );
}

#[test]
fn a_text_without_marker_holds_no_certificate() {
    assert_eq!(split_certificate_chain(""), Vec::<String>::new());
    assert_eq!(split_certificate_chain("-----BEGIN CERTIFICATE-----\nAAEC\n"), Vec::<String>::new());
    assert_eq!(split_certificate_chain("-----END CERTIFICATE----"), Vec::<String>::new());
}

#[test]
fn markers_side_by_side_give_a_certificate_each() {
    let chain = "-----END CERTIFICATE----------END CERTIFICATE-----";
    assert_eq!(
        split_certificate_chain(chain),
        vec![
            String::from("-----END CERTIFICATE-----"),
            String::from("-----END CERTIFICATE-----"),
        ]
    );
}

#[test]
fn trimming_agrees_with_the_standard_library() {
    let spaces = [
        '\u{9}', '\u{a}', '\u{b}', '\u{c}', '\u{d}', ' ', '\u{85}', '\u{a0}', '\u{1680}',
        '\u{2000}', '\u{2005}', '\u{200a}', '\u{2028}', '\u{2029}', '\u{202f}', '\u{205f}',
        '\u{3000}', '\u{8}', '\u{e}', '\u{1f}', '\u{200b}', '\u{180e}', '\u{feff}', 'a',
    ];
    for c in spaces.iter() {
        let certificate = format!("{}{}body{}-----END CERTIFICATE-----", c, c, c);
        let chain = format!("{}{}rest", certificate, c);
        let expected = certificate.trim().to_string();
        assert_eq!(split_certificate_chain(&chain), vec![expected]);
    }
}
