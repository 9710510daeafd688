use bech32_checksums::base32::u5String;
use bech32_checksums::cli::{real_main, Failure};

fn run(action: &str, code: &str, s: &str) -> String {
    match real_main(action, code, s) {
        Ok(out) => out,
        Err(e) => panic!("{} {} {} failed: {:?}", action, code, s, e),
    }
}

fn codex32_valid(s: &str) {
    assert_eq!(run("validate", "codex32", s), "OK");
}

#[test]
fn get_mod_string_long_codex32() {
    let genbch_str = vec![23, 4, 22, 5, 6, 21, 23, 6, 21, 25, 9, 26, 25, 10, 15, 1];
    assert_eq!(u5String::from_u8s(genbch_str).to_string(), "hyk9x4hx4ef6e20p",);
}

#[test]
fn get_mod_string_codex32() {
    let genbch_str = vec![16, 16, 24, 27, 31, 25, 25, 25, 0, 8, 17, 27, 25, 1];
    assert_eq!(u5String::from_u8s(genbch_str).to_string(), "sscmleeeqg3mep",);
}

#[test]
fn get_mod_string_bech32() {
    let genbch_str = vec![18, 29, 21, 20, 22, 29, 1];
    assert_eq!(u5String::from_u8s(genbch_str).to_string(), "ja45kap",);
}

#[test]
fn test_bech32() {
    assert_eq!(
        run("sum", "bech32", "bc1qar0srrr7xfkvy5l643lydnw9re59gtzz"),
        "bc1qar0srrr7xfkvy5l643lydnw9re59gtzzwf5mdq",
    );
    assert_eq!(
        run("validate", "bech32", "bc1qw508d6qejxtdg4y5r3zarvary0c5xw7kv8f3t4"),
        "OK",
    );
}

#[test]
fn test_codex32() {
    assert_eq!(
        run("sum", "codex32", "ms10testsxxxxxxxxxxxxxxxxxxxxxxxxxx"),
        "ms10testsxxxxxxxxxxxxxxxxxxxxxxxxxx4nzvca9cmczlw",
    );
    codex32_valid("ms10testsxxxxxxxxxxxxxxxxxxxxxxxxxx4nzvca9cmczlw");
    codex32_valid("MS12NAMEA320ZYXWVUTSRQPNMLKJHGFEDCAXRPP870HKKQRM");
    codex32_valid("MS12NAMECACDEFGHJKLMNPQRSTUVWXYZ023FTR2GDZMPY6PN");
    codex32_valid("MS12NAMEDLL4F8JLH4E5VDVULDLFXU2JHDNLSM97XVENRXEG");
    codex32_valid("MS12NAMES6XQGUZTTXKEQNJSJZV4JV3NZ5K3KWGSPHUH6EVW");
    codex32_valid("ms13cashsllhdmn9m42vcsamx24zrxgs3qqjzqud4m0d6nln");
    codex32_valid("ms13casha320zyxwvutsrqpnmlkjhgfedca2a8d0zehn8a0t");
    codex32_valid("ms13cashcacdefghjklmnpqrstuvwxyz023949xq35my48dr");
    codex32_valid("ms13cashd0wsedstcdcts64cd7wvy4m90lm28w4ffupqs7rm");
    codex32_valid("ms13casheekgpemxzshcrmqhaydlp6yhms3ws7320xyxsar9");
    codex32_valid("ms13cashf8jh6sdrkpyrsp5ut94pj8ktehhw2hfvyrj48704");

    codex32_valid("ms13cashsllhdmn9m42vcsamx24zrxgs3qqjzqud4m0d6nln");
    codex32_valid("ms13cashsllhdmn9m42vcsamx24zrxgs3qpte35dvzkjpt0r");
    codex32_valid("ms13cashsllhdmn9m42vcsamx24zrxgs3qzfatvdwq5692k6");
    codex32_valid("ms13cashsllhdmn9m42vcsamx24zrxgs3qrsx6ydhed97jx2");
    codex32_valid("ms10leetsllhdmn9m42vcsamx24zrxgs3qrl7ahwvhw4fnzrhve25gvezzyqqtum9pgv99ycma");
    codex32_valid("ms10leetsllhdmn9m42vcsamx24zrxgs3qrl7ahwvhw4fnzrhve25gvezzyqpj82dp34u6lqtd");
    codex32_valid("ms10leetsllhdmn9m42vcsamx24zrxgs3qrl7ahwvhw4fnzrhve25gvezzyqzsrs4pnh7jmpj5");
    codex32_valid("ms10leetsllhdmn9m42vcsamx24zrxgs3qrl7ahwvhw4fnzrhve25gvezzyqrfcpap2w8dqezy");
    codex32_valid("ms10leetsllhdmn9m42vcsamx24zrxgs3qrl7ahwvhw4fnzrhve25gvezzyqy5tdvphn6znrf0");
    codex32_valid("ms10leetsllhdmn9m42vcsamx24zrxgs3qrl7ahwvhw4fnzrhve25gvezzyq9dsuypw2ragmel");
    codex32_valid("ms10leetsllhdmn9m42vcsamx24zrxgs3qrl7ahwvhw4fnzrhve25gvezzyqx05xupvgp4v6qx");
    codex32_valid("ms10leetsllhdmn9m42vcsamx24zrxgs3qrl7ahwvhw4fnzrhve25gvezzyq8k0h5p43c2hzsk");
    codex32_valid("ms10leetsllhdmn9m42vcsamx24zrxgs3qrl7ahwvhw4fnzrhve25gvezzyqgum7hplmjtr8ks");
    codex32_valid("ms10leetsllhdmn9m42vcsamx24zrxgs3qrl7ahwvhw4fnzrhve25gvezzyqf9q0lpxzt5clxq");
    codex32_valid("ms10leetsllhdmn9m42vcsamx24zrxgs3qrl7ahwvhw4fnzrhve25gvezzyq28y48pyqfuu7le");
    codex32_valid("ms10leetsllhdmn9m42vcsamx24zrxgs3qrl7ahwvhw4fnzrhve25gvezzyqt7ly0paesr8x0f");
    codex32_valid("ms10leetsllhdmn9m42vcsamx24zrxgs3qrl7ahwvhw4fnzrhve25gvezzyqvrvg7pqydv5uyz");
    codex32_valid("ms10leetsllhdmn9m42vcsamx24zrxgs3qrl7ahwvhw4fnzrhve25gvezzyqd6hekpea5n0y5j");
    codex32_valid("ms10leetsllhdmn9m42vcsamx24zrxgs3qrl7ahwvhw4fnzrhve25gvezzyqwcnrwpmlkmt9dt");
    codex32_valid("ms10leetsllhdmn9m42vcsamx24zrxgs3qrl7ahwvhw4fnzrhve25gvezzyq0pgjxpzx0ysaam");
}

#[test]
fn test_to_hrp_hex() {
    assert_eq!(run("to_hrp_hex", "bech32", "SECRETSHARE32"), "043381e570bf4798");
    assert_eq!(run("to_hrp_hex", "bech32", "ms1"), "18c0d9",);
    assert_eq!(
        run("to_hrp_hex", "bech32", "ms10testsxxxxxxxxxxxxxxxxxxxxxxxxxx4nzvca9cmczlw"),
        "18c0d9bd7982e06318c6318c6318c6318c6318c6318c635662663a5c6f02fb",
    );
    assert_eq!(
        run("to_hrp_u5", "bech32", "ms10testsxxxxxxxxxxxxxxxxxxxxxxxxxx4nzvca9cmczlw"),
        "[0x03, 0x03, 0x00, 0x0d, 0x13, 0x0f, 0x0b, 0x19, 0x10, 0x0b, 0x10, 0x06, 0x06, 0x06, 0x06, 0x06, 0x06, 0x06, 0x06, 0x06, 0x06, 0x06, 0x06, 0x06, 0x06, 0x06, 0x06, 0x06, 0x06, 0x06, 0x06, 0x06, 0x06, 0x06, 0x06, 0x06, 0x06, 0x15, 0x13, 0x02, 0x0c, 0x18, 0x1d, 0x05, 0x18, 0x1b, 0x18, 0x02, 0x1f, 0x0e, ]",
    );
}

#[test]
fn hex_shows_whole_bytes_only() {
    // 5, 10, 15 and 20 bits.
    assert_eq!(run("to_hrp_hex", "bech32", ""), "");
    assert_eq!(run("to_hrp_hex", "bech32", "l"), "07");
    assert_eq!(run("to_hrp_hex", "bech32", "ll"), "07");
    assert_eq!(run("to_hrp_hex", "bech32", "lll"), "07ff");
    // 40 bits fill five bytes.
    assert_eq!(run("to_hrp_hex", "bech32", "lllllll"), "07ffffffff");
}

#[test]
fn unknown_checksum_is_reported() {
    assert_eq!(real_main("sum", "bech32m", "bc1qq"), Err(Failure::UnknownChecksum));
    assert_eq!(real_main("sum", "Bech32", "bc1qq"), Err(Failure::UnknownChecksum));
    // The name is looked up before the action is.
    assert_eq!(real_main("frobnicate", "nothing", "bc1qq"), Err(Failure::UnknownChecksum));
}

#[test]
fn unknown_action_is_reported() {
    assert_eq!(real_main("frobnicate", "bech32", "bc1qq"), Err(Failure::UnknownAction));
    assert_eq!(real_main("SUM", "bech32", "bc1qq"), Err(Failure::UnknownAction));
    // The action is looked at before the string is parsed.
    assert_eq!(real_main("frobnicate", "bech32", "bc1b"), Err(Failure::UnknownAction));
}

#[test]
fn invalid_input_is_reported() {
    assert_eq!(
        real_main("sum", "bech32", "bc1qbq"),
        Err(Failure::InvalidInput("invalid bech32 character b".to_string())),
    );
    assert_eq!(
        real_main("validate", "codex32", "ms1q q"),
        Err(Failure::InvalidInput("invalid bech32 character  ".to_string())),
    );
    assert_eq!(
        real_main("to_hrp_hex", "bech32", "oops"),
        Err(Failure::InvalidInput("invalid bech32 character o".to_string())),
    );
}

#[test]
fn validate_answers_bad() {
    assert_eq!(run("validate", "bech32", "bc1qar0srrr7xfkvy5l643lydnw9re59gtzzwf5mdp"), "BAD");
    assert_eq!(run("validate", "codex32", "bc1qar0srrr7xfkvy5l643lydnw9re59gtzzwf5mdq"), "BAD");
    assert_eq!(run("validate", "long-codex32", ""), "BAD");
}

#[test]
fn upper_case_is_folded_before_parsing() {
    assert_eq!(run("sum", "bech32", "BC1QAR0SRRR7XFKVY5L643LYDNW9RE59GTZZ"),
        "bc1qar0srrr7xfkvy5l643lydnw9re59gtzzwf5mdq");
    assert_eq!(run("to_hrp_u5", "bech32", "A1Q"), "[0x03, 0x00, 0x01, 0x00, ]");
    assert_eq!(run("to_hrp_u5", "bech32", "a1q"), "[0x03, 0x00, 0x01, 0x00, ]");
}

#[test]
fn empty_string_is_a_lone_separator_zero() {
    assert_eq!(run("to_hrp_u5", "bech32", ""), "[0x00, ]");
    assert_eq!(run("to_hrp_hex", "bech32", ""), "");
    assert_eq!(run("sum", "bech32", ""), "0a06t8");
    assert_eq!(run("sum", "codex32", ""), "z6w5qmqptfexd");
    assert_eq!(run("sum", "long-codex32", ""), "aag3v52t2eharmy");
    assert_eq!(run("validate", "bech32", "0a06t8"), "OK");
}
