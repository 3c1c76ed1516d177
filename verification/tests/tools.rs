use cacia::launch::{get_mainnet_params, get_testnet_params, launch_params, NodeConfig};
use cacia::ledger::{BLOCK_TIME, FEE, TOTAL_SUPPLY};
use cacia::network::{ACK, MAX_MESSAGE_BYTES};
use cacia::wallet::{balance_from_text, is_blank, process_transaction};

#[test]
fn testnet_parameters() {
    assert_eq!(
        get_testnet_params(),
        vec![
            ("NODE_ADDR", "127.0.0.1:7878"),
            ("API_ADDR", "127.0.0.1:8000"),
            ("TOTAL_SUPPLY", "1000000000"),
            ("FEE", "1000"),
            ("BLOCK_TIME", "10"),
        ]
    );
}

#[test]
fn mainnet_parameters() {
    assert_eq!(
        get_mainnet_params(),
        vec![
            ("NODE_ADDR", "127.0.0.1:7878"),
            ("API_ADDR", "127.0.0.1:8000"),
            ("TOTAL_SUPPLY", "1000000000000000"),
            ("FEE", "5000"),
            ("BLOCK_TIME", "5"),
        ]
    );
}

#[test]
fn a_launch_mode_names_its_parameters() {
    assert_eq!(launch_params("testnet"), Some(get_testnet_params()));
    assert_eq!(launch_params("mainnet"), Some(get_mainnet_params()));
    assert_eq!(launch_params("Testnet"), None);
    assert_eq!(launch_params(""), None);
    assert_eq!(launch_params("testnet "), None);
}

#[test]
fn settings_default_where_nothing_usable_is_given() {
    let defaults = NodeConfig::resolve(None, None, None, None, None);
    assert_eq!(defaults.node_addr, "127.0.0.1:7878");
    assert_eq!(defaults.api_addr, "127.0.0.1:8000");
    assert_eq!(defaults.total_supply, TOTAL_SUPPLY);
    assert_eq!(defaults.fee, FEE);
    assert_eq!(defaults.block_time, BLOCK_TIME);
    let given = NodeConfig::resolve(
        Some("0.0.0.0:1".to_string()),
        Some("0.0.0.0:2".to_string()),
        Some("1000000000".to_string()),
        Some("1000".to_string()),
        Some("10".to_string()),
    );
    assert_eq!(given.node_addr, "0.0.0.0:1");
    assert_eq!(given.api_addr, "0.0.0.0:2");
    assert_eq!(given.total_supply, 1_000_000_000);
    assert_eq!(given.fee, 1_000);
    assert_eq!(given.block_time, 10);
    let unusable = NodeConfig::resolve(
        None,
        None,
        Some("a lot".to_string()),
        Some("-1".to_string()),
        Some("18446744073709551616".to_string()),
    );
    assert_eq!(unusable.total_supply, TOTAL_SUPPLY);
    assert_eq!(unusable.fee, FEE);
    assert_eq!(unusable.block_time, BLOCK_TIME);
    for (name, value) in get_testnet_params() {
        let set = |wanted: &str| if name == wanted { Some(value.to_string()) } else { None };
        let config = NodeConfig::resolve(
            set("NODE_ADDR"),
            set("API_ADDR"),
            set("TOTAL_SUPPLY"),
            set("FEE"),
            set("BLOCK_TIME"),
        );
        assert_eq!(config.total_supply == 1_000_000_000, name == "TOTAL_SUPPLY");
        assert_eq!(config.fee == 1_000, name == "FEE");
        assert_eq!(config.block_time == 10, name == "BLOCK_TIME");
    }
}

#[test]
fn a_message_is_read_up_to_four_kibibytes() {
    assert_eq!(MAX_MESSAGE_BYTES, 4096);
    assert_eq!(ACK.as_bytes(), b"ACK");
}

#[test]
fn white_space_is_what_the_standard_library_calls_white_space() {
    for code in 0..=0x10ffffu32 {
        if let Some(c) = char::from_u32(code) {
            assert_eq!(is_blank(c), c.is_whitespace(), "U+{:04X}", code);
        }
    }
}

#[test]
fn a_balance_file_is_read_as_trim_and_parse_read_it() {
    for contents in [
        "",
        "0",
        "42",
        "42\n",
        "  42\t\r\n",
        "\u{a0}42\u{3000}",
        "+42",
        " +42 ",
        "4 2",
        "-42",
        "forty-two",
        "18446744073709551615\n",
        "18446744073709551616\n",
        " ",
        "\n\n",
        "00042",
        "42.0",
        "\u{feff}42",
        "42\u{200b}",
    ] {
        let expected: u64 = contents.trim().parse().unwrap_or(0);
        assert_eq!(balance_from_text(contents), expected, "{:?}", contents);
    }
    assert_eq!(balance_from_text(" 7 "), 7);
    assert_eq!(balance_from_text("x"), 0);
}

#[test]
fn a_transfer_needs_an_amount_that_is_a_number() {
    assert_eq!(process_transaction("a", "b", "10"), Ok(()));
    assert_eq!(process_transaction("a", "b", "+10"), Ok(()));
    assert_eq!(process_transaction("", "", "0"), Ok(()));
    for amount in ["", "ten", "-1", "1.5", " 10", "10 ", "18446744073709551616"] {
        assert_eq!(
            process_transaction("a", "b", amount),
            Err("Invalid amount.".to_string()),
            "{:?}",
            amount
        );
        assert_eq!(process_transaction("a", "b", amount).is_err(), amount.parse::<u64>().is_err());
    }
}
