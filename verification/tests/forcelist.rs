use ublock_installer::forcelist::{
    add_args, plan_addition, plan_addition_for_output, plan_removal, plan_removal_for_output,
    query_args, removal_args, slot_name, ubol_entry, AdditionPlan, RemovalPlan, FORCELIST_KEY,
};

const HEADER: &str = "HKEY_CURRENT_USER\\Software\\Policies\\Google\\Chrome\\ExtensionInstallForcelist";

fn listing(values: &[(&str, &str)]) -> String {
    let mut s = format!("\r\n{}\r\n", HEADER);
    for (name, data) in values {
        s.push_str(&format!("    {}    REG_SZ    {}\r\n", name, data));
    }
    s.push_str("\r\n");
    s
}

fn entry() -> String {
    ubol_entry()
}

#[test]
fn entry_joins_id_and_update_url() {
    assert_eq!(
        entry(),
        "ddkjiahejlhfcafbddmgiahcphecmpfh;https://clients2.google.com/service/update2/crx"
    );
}

#[test]
fn empty_output_adds_at_slot_one() {
    assert_eq!(plan_addition("", &entry()), AdditionPlan::AddAt(1));
}

#[test]
fn missing_key_message_adds_at_slot_one() {
    let text = "ERROR: The system was unable to find the specified registry key or value.\r\n";
    assert_eq!(plan_addition(text, &entry()), AdditionPlan::AddAt(1));
}

#[test]
fn other_extensions_push_slot_up() {
    let text = listing(&[("1", "aaaa;https://example.com/u"), ("2", "bbbb")]);
    assert_eq!(plan_addition(&text, &entry()), AdditionPlan::AddAt(3));
}

#[test]
fn first_gap_is_used() {
    let text = listing(&[("1", "aaaa"), ("3", "cccc")]);
    assert_eq!(plan_addition(&text, &entry()), AdditionPlan::AddAt(2));
}

#[test]
fn names_are_read_as_u32() {
    // "+2" and "002" stand for 2, "x" and "-1" for nothing.
    let text = listing(&[("+2", "a"), ("1", "b"), ("x", "c"), ("-1", "d"), ("003", "e")]);
    assert_eq!(plan_addition(&text, &entry()), AdditionPlan::AddAt(4));
}

#[test]
fn too_large_name_takes_no_slot() {
    let text = listing(&[("4294967296", "a"), ("1", "b")]);
    assert_eq!(plan_addition(&text, &entry()), AdditionPlan::AddAt(2));
}

#[test]
fn present_entry_is_not_written_again() {
    let e = entry();
    let text = listing(&[("1", "aaaa"), ("2", &e)]);
    assert_eq!(plan_addition(&text, &e), AdditionPlan::AlreadyPresent);
}

#[test]
fn entry_with_extra_spaces_is_recognised() {
    let e = entry();
    let text = format!("  7 REG_SZ {}   \n", e);
    assert_eq!(plan_addition(&text, &e), AdditionPlan::AlreadyPresent);
}

#[test]
fn line_cut_at_first_reg_sz() {
    // The data holds REG_SZ itself; the name is what comes before the first one.
    let text = "    1    REG_SZ    xREG_SZy\r\n";
    assert_eq!(plan_addition(text, "xREG_SZy"), AdditionPlan::AlreadyPresent);
    assert_eq!(plan_addition(text, "REG_SZy"), AdditionPlan::AddAt(2));
}

#[test]
fn invalid_utf8_output_is_decoded_lossily() {
    let mut bytes = b"    1    REG_SZ    ".to_vec();
    bytes.push(0xff);
    bytes.extend_from_slice(b"\r\n    2    REG_SZ    z\r\n");
    assert_eq!(plan_addition_for_output(&bytes, "\u{FFFD}"), AdditionPlan::AlreadyPresent);
    assert_eq!(plan_addition_for_output(&bytes, &entry()), AdditionPlan::AddAt(3));
}

#[test]
fn removal_of_sole_value_deletes_key() {
    let e = entry();
    let text = listing(&[("1", &e)]);
    assert_eq!(plan_removal(&text, &e), RemovalPlan::DeleteKey);
}

#[test]
fn removal_among_others_deletes_only_ours() {
    let e = entry();
    let text = listing(&[("1", "aaaa"), ("3", &e), ("4", "bbbb")]);
    assert_eq!(plan_removal(&text, &e), RemovalPlan::DeleteValue("3".to_string()));
}

#[test]
fn removal_picks_last_copy() {
    let e = entry();
    let text = listing(&[("1", &e), ("4", &e)]);
    assert_eq!(plan_removal(&text, &e), RemovalPlan::DeleteValue("4".to_string()));
}

#[test]
fn removal_without_entry_does_nothing() {
    let text = listing(&[("1", "aaaa")]);
    assert_eq!(plan_removal(&text, &entry()), RemovalPlan::NotPresent);
    assert_eq!(plan_removal("", &entry()), RemovalPlan::NotPresent);
}

#[test]
fn removal_reads_bytes() {
    let e = entry();
    let text = listing(&[("2", &e), ("5", "other")]);
    assert_eq!(
        plan_removal_for_output(text.as_bytes(), &e),
        RemovalPlan::DeleteValue("2".to_string())
    );
}

#[test]
fn query_command_line() {
    assert_eq!(query_args(), vec!["query".to_string(), FORCELIST_KEY.to_string()]);
    assert_eq!(
        FORCELIST_KEY,
        "HKCU\\Software\\Policies\\Google\\Chrome\\ExtensionInstallForcelist"
    );
}

#[test]
fn add_command_line() {
    let e = entry();
    let args = add_args(3, &e);
    let expected: Vec<String> = ["add", FORCELIST_KEY, "/v", "3", "/t", "REG_SZ", "/d", &e, "/f"]
        .iter()
        .map(|s| s.to_string())
        .collect();
    assert_eq!(args, expected);
}

#[test]
fn delete_command_lines() {
    let key: Vec<String> =
        ["delete", FORCELIST_KEY, "/f"].iter().map(|s| s.to_string()).collect();
    assert_eq!(removal_args(&RemovalPlan::DeleteKey), Some(key));
    let value: Vec<String> =
        ["delete", FORCELIST_KEY, "/v", "12", "/f"].iter().map(|s| s.to_string()).collect();
    assert_eq!(removal_args(&RemovalPlan::DeleteValue("12".to_string())), Some(value));
    assert_eq!(removal_args(&RemovalPlan::NotPresent), None);
    assert_eq!(removal_args(&RemovalPlan::TooManyValues), None);
}

#[test]
fn slot_names_are_decimal() {
    assert_eq!(slot_name(0), "0");
    assert_eq!(slot_name(7), "7");
    assert_eq!(slot_name(10), "10");
    assert_eq!(slot_name(4294967295), "4294967295");
}

#[test]
fn uninstall_undoes_install_on_a_listing() {
    let e = entry();
    let before = [("1", "aaaa"), ("2", "bbbb")];
    let slot = match plan_addition(&listing(&before), &e) {
        AdditionPlan::AddAt(n) => n,
        other => panic!("unexpected plan {:?}", other),
    };
    assert_eq!(slot, 3);
    let name = slot_name(slot);
    let after = listing(&[("1", "aaaa"), (&name, &e), ("2", "bbbb")]);
    assert_eq!(plan_addition(&after, &e), AdditionPlan::AlreadyPresent);
    assert_eq!(plan_removal(&after, &e), RemovalPlan::DeleteValue(name));
}

#[test]
fn uninstall_after_install_into_empty_key_deletes_key() {
    let e = entry();
    let slot = match plan_addition(&listing(&[]), &e) {
        AdditionPlan::AddAt(n) => n,
        other => panic!("unexpected plan {:?}", other),
    };
    let name = slot_name(slot);
    let after = listing(&[(&name, &e)]);
    assert_eq!(plan_removal(&after, &e), RemovalPlan::DeleteKey);
}

#[test]
fn uninstall_undoes_install_with_padded_and_empty_values() {
    let e = entry();
    let before = [("1", ""), ("2 ", "x"), ("4", " y ")];
    let slot = match plan_addition(&listing(&before), &e) {
        AdditionPlan::AddAt(n) => n,
        other => panic!("unexpected plan {:?}", other),
    };
    assert_eq!(slot, 3);
    let name = slot_name(slot);
    let after = listing(&[("1", ""), ("2 ", "x"), (&name, &e), ("4", " y ")]);
    assert_eq!(plan_addition(&after, &e), AdditionPlan::AlreadyPresent);
    assert_eq!(plan_removal(&after, &e), RemovalPlan::DeleteValue(name));
}
