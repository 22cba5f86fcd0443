use lib::trunk_quant::{
    holds_whole_rows, keep_as_stored, rows_convert, screen_tensor, target_from_name, tensor_shape, GgmlType,
    Outcome, Screen, TrunkQuantReport, TRUNK_QUANT_NAMES,
};

#[test]
fn the_names_a_person_can_type() {
    assert_eq!(target_from_name("off"), Some(None));
    assert_eq!(target_from_name("q8_0"), Some(None));
    assert_eq!(target_from_name("Q4_K"), Some(Some(GgmlType(12))));
    assert_eq!(target_from_name("q4k"), Some(Some(GgmlType(12))));
    assert_eq!(target_from_name("q5_k"), Some(Some(GgmlType(13))));
    assert_eq!(target_from_name("q6_k"), Some(Some(GgmlType(14))));
    assert_eq!(target_from_name("iq2_xxs"), None);
    assert_eq!(target_from_name("q4_0"), None);
    assert_eq!(target_from_name(""), None);
}

#[test]
fn the_logit_projection_is_left_alone() {
    assert!(keep_as_stored("output.weight"));
    assert!(!keep_as_stored("token_embd.weight"));
    assert!(!keep_as_stored("blk.0.attn_q_b.weight"));
    assert!(!keep_as_stored("blk.7.ffn_gate_shexp.weight"));
}

#[test]
fn every_offered_name_parses() {
    for name in TRUNK_QUANT_NAMES.split(", ") {
        assert!(target_from_name(name).is_some(), "{name} is offered but refused");
    }
    assert_eq!(target_from_name("NONE"), Some(None));
    assert_eq!(target_from_name(" q4_k"), None, "names are not trimmed");
}

#[test]
fn a_report_counts_what_it_saw_and_what_it_saved() {
    let mut r = TrunkQuantReport::new(GgmlType(12));
    r.count(Outcome::ByName);
    r.count(Outcome::WrongType);
    r.count(Outcome::WrongType);
    r.count(Outcome::WrongShape);
    r.count(Outcome::Passed);
    r.count(Outcome::Converted { before: 1000, after: 560 });
    r.count(Outcome::Converted { before: 500, after: 280 });
    assert_eq!(r.skipped_by_name, 1);
    assert_eq!(r.skipped_type, 2);
    assert_eq!(r.skipped_shape, 1);
    assert_eq!(r.converted, 2);
    assert_eq!((r.bytes_before, r.bytes_after), (1500, 840));
    assert_eq!(r.saved(), 660);
    assert_eq!(r.target, Some(GgmlType(12)));
    let grew = TrunkQuantReport { bytes_before: 10, bytes_after: 20, ..r };
    assert_eq!(grew.saved(), 0);
}

#[test]
fn a_tensor_is_screened_in_order() {
    assert_eq!(screen_tensor("output.weight", Some(8), false, &[4096, 129280]), Screen::ByName);
    assert_eq!(screen_tensor("blk.0.attn_q_a.weight", None, false, &[4096]), Screen::Unlocated);
    assert_eq!(screen_tensor("blk.0.attn_norm.weight", Some(0), false, &[4096]), Screen::WrongType);
    assert_eq!(screen_tensor("blk.0.attn_q_a.weight", Some(8), true, &[4096, 1024]), Screen::WrongType);
    assert_eq!(screen_tensor("blk.0.attn_q_a.weight", Some(8), false, &[]), Screen::Shapeless);
    assert_eq!(
        screen_tensor("blk.0.attn_q_a.weight", Some(8), false, &[4096, 1024]),
        Screen::Shape { ne0: 4096, nrows: 1024 }
    );
}

#[test]
fn a_shape_is_its_row_and_the_product_of_the_rest() {
    assert_eq!(tensor_shape(&[]), None);
    assert_eq!(tensor_shape(&[7]), Some((7, 1)));
    assert_eq!(tensor_shape(&[7, 3, 5]), Some((7, 15)));
    assert_eq!(tensor_shape(&[7, 0, 5]), Some((7, 0)));
}

#[test]
fn only_a_shrinking_whole_block_conversion_goes_ahead() {
    assert!(rows_convert(Some(1088), Some(576)));
    assert!(!rows_convert(Some(576), Some(1088)));
    assert!(!rows_convert(Some(576), Some(576)));
    assert!(!rows_convert(None, Some(576)));
    assert!(!rows_convert(Some(1088), None));
}

#[test]
fn the_largest_tensor_converts_first_and_names_break_ties() {
    let names: Vec<(u64, String)> = vec![
        (10, "blk.1.attn_q_b.weight".to_string()),
        (900, "token_embd.weight".to_string()),
        (10, "blk.0.attn_q_b.weight".to_string()),
        (0, "output_norm.weight".to_string()),
        (900, "output.weight".to_string()),
    ];
    let order: Vec<String> = lib::trunk_quant::conversion_sequence(&names).into_iter().map(|(_, n)| n).collect();
    assert_eq!(
        order,
        vec![
            "output.weight",
            "token_embd.weight",
            "blk.0.attn_q_b.weight",
            "blk.1.attn_q_b.weight",
            "output_norm.weight",
        ]
    );
    let mut shuffled = names.clone();
    shuffled.reverse();
    assert_eq!(
        lib::trunk_quant::conversion_sequence(&shuffled),
        lib::trunk_quant::conversion_sequence(&names),
        "two runs convert in the same order"
    );
}

#[test]
fn only_whole_rows_are_converted() {
    assert!(holds_whole_rows(34 * 8, 34, 8));
    assert!(!holds_whole_rows(34 * 8 - 1, 34, 8));
    assert!(!holds_whole_rows(34 * 8 + 34, 34, 8));
    assert!(holds_whole_rows(0, 34, 0));
    assert!(!holds_whole_rows(usize::MAX, usize::MAX, 2));
}
