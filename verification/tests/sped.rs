use sped_recovery::amount::{mul_div, parse_amount, render_amount};
use sped_recovery::calculator::compute_savings;
use sped_recovery::classify::classify_first_line;
use sped_recovery::cnpj::is_cnpj_valid;
use sped_recovery::decode::{summarize_contribuicoes_file, summarize_icms_ipi_file};
use sped_recovery::efd_contribuicoes::{Apuracao, FlatSummary};
use sped_recovery::error::SpedError;
use sped_recovery::table::{CompositeKey, CompositeMap};
use sped_recovery::tokenize::split_line_fields;
use sped_recovery::{efd_contribuicoes, efd_icms_ipi};

fn bytes(s: &str) -> Vec<u8> {
    s.as_bytes().to_vec()
}

fn key(b: &str, m: &str, c: &str) -> CompositeKey {
    CompositeKey { branch: bytes(b), model: bytes(m), cfop: bytes(c) }
}

// ---- numeric field decoder ----

#[test]
fn decodes_comma_separated_value() {
    assert_eq!(parse_amount(&bytes("100,50")), 1_005_000);
}

#[test]
fn decodes_period_separated_value() {
    assert_eq!(parse_amount(&bytes("1.25")), 12_500);
}

#[test]
fn decodes_plain_integer() {
    assert_eq!(parse_amount(&bytes("7")), 70_000);
}

#[test]
fn unparsable_fields_decode_to_zero() {
    assert_eq!(parse_amount(&bytes("")), 0);
    assert_eq!(parse_amount(&bytes("abc")), 0);
    assert_eq!(parse_amount(&bytes("1,2,3")), 0);
    assert_eq!(parse_amount(&bytes("-5")), 0);
    assert_eq!(parse_amount(&bytes(",")), 0);
    assert_eq!(parse_amount(&bytes("1,23456")), 0);
}

#[test]
fn decode_then_render_round_trips() {
    let v = parse_amount(&bytes("100,50"));
    assert_eq!(render_amount(v as u128), bytes("100,50"));
    let w = parse_amount(&bytes("0,07"));
    assert_eq!(render_amount(w as u128), bytes("0,07"));
}

#[test]
fn render_truncates_to_two_places() {
    assert_eq!(render_amount(12_345), bytes("1,23"));
    assert_eq!(render_amount(0), bytes("0,00"));
}

#[test]
fn proportional_split_of_zero_divisor_is_zero() {
    assert_eq!(mul_div(10, 5, 0).unwrap(), 0);
    assert_eq!(mul_div(10, 0, 5).unwrap(), 0);
    assert_eq!(mul_div(2_000_000, 500_000, 1_000_000).unwrap(), 1_000_000);
}

#[test]
fn proportional_split_overflow_is_reported() {
    assert!(matches!(mul_div(u128::MAX, u128::MAX, 1), Err(SpedError::ValueOverflow)));
}

// ---- record tokenizer ----

#[test]
fn tokenizer_splits_on_pipes_and_strips_cr() {
    let f = split_line_fields(&bytes("|C100|a||b\r"));
    assert_eq!(f, vec![bytes(""), bytes("C100"), bytes("a"), bytes(""), bytes("b")]);
}

// ---- ICMS/IPI aggregator ----

#[test]
fn icms_ipi_end_to_end() {
    let text = bytes("|0000|a|b|c|d|e|12345\n|C100|x|x|x|55\n|C190|x|5102|x|x|x|100,50\n");
    let m = efd_icms_ipi::summarize(&text).unwrap();
    assert_eq!(m.entries.len(), 1);
    assert_eq!(m.entries[0].0.branch, bytes("12345"));
    assert_eq!(m.entries[0].0.model, bytes("55"));
    assert_eq!(m.entries[0].0.cfop, bytes("5102"));
    assert_eq!(m.entries[0].1, 1_005_000);
}

#[test]
fn icms_ipi_sums_equal_keys() {
    let text = bytes(
        "|0000|a|b|c|d|e|12345\n|C100|x|x|x|55\n|C190|x|5102|x|x|x|1,00\n|C190|x|5102|x|x|x|2,00\n",
    );
    let m = efd_icms_ipi::summarize(&text).unwrap();
    assert_eq!(m.entries.len(), 1);
    assert_eq!(m.entries[0].1, 30_000);
}

#[test]
fn icms_ipi_unimplemented_record_is_fatal() {
    let text = bytes("|0000|a|b|c|d|e|12345\n|C320|x\n");
    match efd_icms_ipi::summarize(&text) {
        Err(SpedError::NotImplemented(t)) => assert_eq!(t, bytes("C320")),
        other => panic!("expected a not-implemented failure, got {:?}", other.is_ok()),
    }
}

#[test]
fn icms_ipi_short_header_is_fatal() {
    let text = bytes("|0000|only\n");
    assert!(matches!(efd_icms_ipi::summarize(&text), Err(SpedError::MissingField(_))));
}

#[test]
fn icms_ipi_c400_and_c500_set_the_model() {
    let text = bytes(
        "|0000|a|b|c|d|e|12345\n|C400|2D\n|C490|x|5102|x|x|x|1,00\n|C500|x|x|x|06\n|C590|x|5102|x|x|x|2,00\n",
    );
    let m = efd_icms_ipi::summarize(&text).unwrap();
    assert_eq!(m.entries.len(), 2);
    assert_eq!(m.entries[0].0.model, bytes("2D"));
    assert_eq!(m.entries[0].1, 10_000);
    assert_eq!(m.entries[1].0.model, bytes("06"));
    assert_eq!(m.entries[1].1, 20_000);
}

// ---- Contribuições aggregator ----

#[test]
fn contribuicoes_invoice_split_end_to_end() {
    // C100 header carries 200,00 at position 22; two C175 rows of 50,00
    // each under CFOP 5102, one with tax situation 01.
    let text = bytes(
        "|C010|12345|1\n|C100|1|x|x|55|x|x|x|INV1|x|x|x|x|x|x|x|x|x|x|x|x|200,00\n|C175|5102|50,00|x|01\n|C175|5102|50,00|x|02\n",
    );
    let empty = CompositeMap::new();
    let (summary, m210, m610) = efd_contribuicoes::summarize(&text, &empty).unwrap();
    assert_eq!(summary.c175, 1_000_000); // 200,00 * 50 / 100 = 100,00
    assert_eq!(summary.c170, 0);
    assert_eq!(summary.c180, 0);
    assert!(m210.is_empty());
    assert!(m610.is_empty());
}

#[test]
fn contribuicoes_c181_resolves_against_icms_summary() {
    let icms_text = bytes("|0000|a|b|c|d|e|12345\n|C100|x|x|x|55\n|C190|x|5102|x|x|x|100,50\n");
    let table = efd_icms_ipi::summarize(&icms_text).unwrap();
    let text = bytes("|C010|12345|1\n|C180|55\n|C181|01|5102|50,00\n");
    let (summary, _, _) = efd_contribuicoes::summarize(&text, &table).unwrap();
    // base 100,50 from the other document family, total 50, subset 50
    assert_eq!(summary.c180, 1_005_000);
}

#[test]
fn contribuicoes_missing_cross_document_key_is_fatal() {
    let text = bytes("|C010|12345|1\n|C180|55\n|C181|01|5102|50,00\n");
    let empty = CompositeMap::new();
    match efd_contribuicoes::summarize(&text, &empty) {
        Err(SpedError::MissingKey(b, m, c)) => {
            assert_eq!(b, bytes("12345"));
            assert_eq!(m, bytes("55"));
            assert_eq!(c, bytes("5102"));
        },
        other => panic!("expected a missing-key failure, got {:?}", other.is_ok()),
    }
}

#[test]
fn contribuicoes_invalid_cfop_is_fatal() {
    let text = bytes("|C010|12345|1\n|C180|55\n|C181|01|9999|50,00\n");
    let empty = CompositeMap::new();
    match efd_contribuicoes::summarize(&text, &empty) {
        Err(SpedError::InvalidCfop(c)) => assert_eq!(c, bytes("9999")),
        other => panic!("expected an invalid-CFOP failure, got {:?}", other.is_ok()),
    }
}

#[test]
fn contribuicoes_c181_skipped_under_accounting_method_two() {
    // ind_escri 2 and a C180 model other than 65: the C181 row is not
    // processed at all, so its otherwise fatal CFOP passes through.
    let text = bytes("|C010|12345|2\n|C180|55\n|C181|01|9999|50,00\n");
    let empty = CompositeMap::new();
    assert!(efd_contribuicoes::summarize(&text, &empty).is_ok());
    // model 65 overrides the method-2 skip
    let text2 = bytes("|C010|12345|2\n|C180|65\n|C181|01|9999|50,00\n");
    assert!(matches!(
        efd_contribuicoes::summarize(&text2, &empty),
        Err(SpedError::InvalidCfop(_))
    ));
}

#[test]
fn contribuicoes_c170_accumulates_only_incoming_qualifying_items() {
    // ind_oper 1, model not 55: the 01-coded item value at position 15
    // accumulates under C170.
    let c100 = "|C100|1|x|x|01|x|x|x|INV1";
    let c170 = "|C170|x|x|x|x|x|x|x|x|x|x|x|x|x|3,00|x|x|x|x|x|x|x|x|x|01";
    let text = bytes(&format!("|C010|12345|1\n{}\n{}\n", c100, c170));
    let empty = CompositeMap::new();
    let (summary, _, _) = efd_contribuicoes::summarize(&text, &empty).unwrap();
    assert_eq!(summary.c170, 30_000);
    // same item under the electronic-invoice model and accounting method 1
    // is presumed covered elsewhere and skipped
    let c100_nfe = "|C100|1|x|x|55|x|x|x|INV1";
    let text2 = bytes(&format!("|C010|12345|1\n{}\n{}\n", c100_nfe, c170));
    let (summary2, _, _) = efd_contribuicoes::summarize(&text2, &empty).unwrap();
    assert_eq!(summary2.c170, 0);
    // outgoing operations are never considered
    let c100_out = "|C100|0|x|x|01|x|x|x|INV1";
    let text3 = bytes(&format!("|C010|12345|1\n{}\n{}\n", c100_out, c170));
    let (summary3, _, _) = efd_contribuicoes::summarize(&text3, &empty).unwrap();
    assert_eq!(summary3.c170, 0);
}

#[test]
fn contribuicoes_unimplemented_record_is_fatal() {
    let text = bytes("|C010|12345|1\n|F100|x\n");
    let empty = CompositeMap::new();
    match efd_contribuicoes::summarize(&text, &empty) {
        Err(SpedError::NotImplemented(t)) => assert_eq!(t, bytes("F100")),
        other => panic!("expected a not-implemented failure, got {:?}", other.is_ok()),
    }
}

fn m210_of(text: &str) -> Vec<Apuracao> {
    let empty = CompositeMap::new();
    let (_, m210, _) = efd_contribuicoes::summarize(&bytes(text), &empty).unwrap();
    m210
}

#[test]
fn assessment_codes_other_than_01_and_51_are_excluded() {
    // 15-field layout
    assert!(m210_of("|M210|02|100,00|10,00|5,00|x|x|x|x|x|x|x|x|x\n").is_empty());
    // shifted layout
    assert!(m210_of("|M210|03|100,00|x|x|x|10,00|5,00\n").is_empty());
    // codes 01 and 51 are kept
    assert_eq!(m210_of("|M210|01|100,00|10,00|5,00|x|x|x|x|x|x|x|x|x\n").len(), 1);
    assert_eq!(m210_of("|M210|51|100,00|x|x|x|10,00|5,00\n").len(), 1);
}

#[test]
fn assessment_layouts_agree_on_shifted_positions() {
    let a = m210_of("|M210|01|100,00|10,00|5,00|x|x|x|x|x|x|x|x|x\n");
    let b = m210_of("|M210|01|100,00|x|x|x|10,00|5,00\n");
    assert_eq!(a.len(), 1);
    assert_eq!(b.len(), 1);
    assert_eq!(a[0].vl_rec_brt, b[0].vl_rec_brt);
    assert_eq!(a[0].vl_bc_cont, b[0].vl_bc_cont);
    assert_eq!(a[0].aliq_cont, b[0].aliq_cont);
    assert_eq!(a[0].vl_rec_brt, 1_000_000);
    assert_eq!(a[0].vl_bc_cont, 100_000);
    assert_eq!(a[0].aliq_cont, 50_000);
}

#[test]
fn m610_rows_go_to_their_own_list() {
    let empty = CompositeMap::new();
    let (_, m210, m610) =
        efd_contribuicoes::summarize(&bytes("|M610|01|100,00|x|x|x|10,00|5,00\n"), &empty)
            .unwrap();
    assert!(m210.is_empty());
    assert_eq!(m610.len(), 1);
    assert_eq!(m610[0].vl_rec_brt, 1_000_000);
}

// ---- tax-savings calculator ----

#[test]
fn calculator_apportions_by_revenue_share() {
    let summary = FlatSummary { c170: 400_000, c175: 0, c180: 0 }; // total 40
    let m210 = vec![
        Apuracao { vl_rec_brt: 1_000_000, vl_bc_cont: 100_000, aliq_cont: 50_000 },
        Apuracao { vl_rec_brt: 3_000_000, vl_bc_cont: 100_000, aliq_cont: 50_000 },
    ];
    let m610: Vec<Apuracao> = Vec::new();
    let (pis, cofins) = compute_savings(&summary, &m210, &m610).unwrap();
    assert_eq!(pis, 20_000); // 0,5 + 1,5 = 2,00
    assert_eq!(cofins, 0);
}

#[test]
fn calculator_zero_revenue_total_yields_zero_savings() {
    let summary = FlatSummary { c170: 400_000, c175: 0, c180: 0 };
    let m210 = vec![Apuracao { vl_rec_brt: 0, vl_bc_cont: 0, aliq_cont: 50_000 }];
    let (pis, cofins) = compute_savings(&summary, &m210, &Vec::new()).unwrap();
    assert_eq!(pis, 0);
    assert_eq!(cofins, 0);
}

#[test]
fn calculator_overflowing_summary_is_reported() {
    let summary = FlatSummary { c170: u128::MAX, c175: 1, c180: 0 };
    assert!(matches!(
        compute_savings(&summary, &Vec::new(), &Vec::new()),
        Err(SpedError::ValueOverflow)
    ));
}

// ---- composite-key table ----

#[test]
fn composite_map_sums_and_looks_up() {
    let mut m = CompositeMap::new();
    m.add_to(key("1", "55", "5102"), 100).unwrap();
    m.add_to(key("1", "55", "5102"), 23).unwrap();
    m.add_to(key("2", "55", "5102"), 7).unwrap();
    assert_eq!(m.lookup(&key("1", "55", "5102")), Some(123));
    assert_eq!(m.lookup(&key("2", "55", "5102")), Some(7));
    assert_eq!(m.lookup(&key("3", "55", "5102")), None);
}

// ---- encoding ----

#[test]
fn non_ascii_branch_bytes_are_decoded_from_windows_1252() {
    // 0xE7 is a cedilla in WINDOWS-1252; its UTF-8 form is C3 A7.  An
    // identity decode would leave the lone E7 byte in place.
    let mut text: Vec<u8> = Vec::new();
    text.extend_from_slice(b"|0000|a|b|c|d|e|x");
    text.push(0xE7);
    text.extend_from_slice(b"\n|C100|x|x|x|55\n|C190|x|5102|x|x|x|1,00\n");
    let m = summarize_icms_ipi_file(&text).unwrap();
    assert_eq!(m.entries[0].0.branch, vec![b'x', 0xC3, 0xA7]);
}

#[test]
fn file_level_contribuicoes_matches_text_level() {
    let icms_text = bytes("|0000|a|b|c|d|e|12345\n|C100|x|x|x|55\n|C190|x|5102|x|x|x|100,50\n");
    let table = summarize_icms_ipi_file(&icms_text).unwrap();
    let text = bytes("|C010|12345|1\n|C180|55\n|C181|01|5102|50,00\n");
    let (summary, _, _) = summarize_contribuicoes_file(&text, &table).unwrap();
    assert_eq!(summary.c180, 1_005_000);
}

// ---- taxpayer identifier and classification ----

#[test]
fn cnpj_checksums_are_enforced() {
    assert!(is_cnpj_valid(&bytes("11222333000181")));
    assert!(is_cnpj_valid(&bytes("11.222.333/0001-81")));
    assert!(!is_cnpj_valid(&bytes("11222333000182")));
    assert!(!is_cnpj_valid(&bytes("11111111111111")));
    assert!(!is_cnpj_valid(&bytes("123")));
    assert!(!is_cnpj_valid(&bytes("")));
}

#[test]
fn first_lines_classify_into_roles() {
    let contrib = split_line_fields(&bytes("|0000|a|b|c|d|e|P1|x|11222333000181"));
    let r = classify_first_line(&contrib, &None);
    assert!(r.is_contribuicoes);
    assert!(!r.is_icms_ipi);
    assert_eq!(r.competencia, Some(bytes("P1")));

    let icms = split_line_fields(&bytes("|0000|a|b|c|P2|x|11222333000181"));
    let r2 = classify_first_line(&icms, &None);
    assert!(r2.is_icms_ipi);
    assert_eq!(r2.competencia, Some(bytes("P2")));

    // with a period already fixed, a mismatched file takes no role
    let r3 = classify_first_line(&icms, &Some(bytes("P9")));
    assert!(!r3.is_icms_ipi);
    assert_eq!(r3.competencia, Some(bytes("P9")));
    let r4 = classify_first_line(&icms, &Some(bytes("P2")));
    assert!(r4.is_icms_ipi);
}
