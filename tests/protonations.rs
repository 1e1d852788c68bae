use protonations::grid::{build_ph_grid, PhRangeError};
use protonations::sequence_parser::{get_gco, parse_config_line, parse_site_literal};
use protonations::registry::{insert_group, parse_sequence, valid_lines, Registry};
use protonations::text::split_text;
use protonations::solvers::{solve_point, solve_range, MicroState, PREVALENCE_SCALE};
use protonations::types::GroupChargeOptions;

const HALF: u64 = PREVALENCE_SCALE / 2;

/// Low-pH fraction of a group of the given pKa at the given pH, in units of
/// `PREVALENCE_SCALE`.
fn low_ph_fraction(pka: f64, ph: f64) -> u64 {
    let h = 10f64.powf(-ph);
    let ka = 10f64.powf(-pka);
    let coeff = h / (h + ka);
    (coeff * PREVALENCE_SCALE as f64).round() as u64
}

fn total(states: &[MicroState]) -> u64 {
    states.iter().map(|s| s.prevalence).sum()
}

#[test]
fn gco_from_str_reads_both_names() {
    assert_eq!(GroupChargeOptions::from_str("PosOrNeu"), Ok(GroupChargeOptions::PosOrNeu));
    assert_eq!(GroupChargeOptions::from_str("NeuOrNeg"), Ok(GroupChargeOptions::NeuOrNeg));
}

#[test]
fn gco_from_str_refuses_other_text() {
    assert_eq!(
        GroupChargeOptions::from_str("posorneu"),
        Err("Unable to deserialize \"posorneu\" to GroupChargeOptions".to_string())
    );
    assert!(GroupChargeOptions::from_str("").is_err());
}

#[test]
fn charge_pairs_are_fixed() {
    assert_eq!(GroupChargeOptions::PosOrNeu.to_tuple(), (1, 0));
    assert_eq!(GroupChargeOptions::NeuOrNeg.to_tuple(), (0, -1));
}

#[test]
fn charge_pairs_hold_in_patterns_whatever_the_coefficient() {
    let seq = [GroupChargeOptions::PosOrNeu, GroupChargeOptions::NeuOrNeg];
    for c in [0, 1, HALF, PREVALENCE_SCALE - 1, PREVALENCE_SCALE] {
        let states = solve_point(&seq, &[c, c], 0);
        for s in &states {
            assert!(s.charge_pattern[0] == 1 || s.charge_pattern[0] == 0);
            assert!(s.charge_pattern[1] == 0 || s.charge_pattern[1] == -1);
        }
    }
}

#[test]
fn get_gco_pops_the_behaviour() {
    let mut values = vec!["3.1", "8.0", "4.1", "NeuOrNeg"];
    assert_eq!(get_gco(&mut values, 4), Ok(GroupChargeOptions::NeuOrNeg));
    assert_eq!(values, vec!["3.1", "8.0", "4.1"]);
}

#[test]
fn get_gco_reports_a_bad_token_with_its_line() {
    let mut values = vec!["3.1", "8.0", "4.1", "Neutral"];
    assert_eq!(
        get_gco(&mut values, 305),
        Err("[ Config::build ] Invalig group charge option at line index 305 (line value: \"Neutral\")"
            .to_string())
    );
    assert_eq!(values.len(), 3);
    let mut values = vec!["x"];
    assert_eq!(
        get_gco(&mut values, 0),
        Err("[ Config::build ] Invalig group charge option at line index 0 (line value: \"x\")"
            .to_string())
    );
}

#[test]
fn no_groups_give_the_root_state() {
    let states = solve_point(&[], &[], 0);
    assert_eq!(states.len(), 1);
    assert_eq!(states[0].prevalence, PREVALENCE_SCALE);
    assert!(states[0].charge_pattern.is_empty());
}

#[test]
fn single_site_at_its_pka_splits_evenly() {
    let c = low_ph_fraction(4.0, 4.0);
    assert_eq!(c, HALF);
    for tol in [0, 1, HALF - 1] {
        let states = solve_point(&[GroupChargeOptions::NeuOrNeg], &[c], tol);
        assert_eq!(states.len(), 2);
        assert_eq!(states[0].prevalence, HALF);
        assert_eq!(states[0].charge_pattern, vec![0]);
        assert_eq!(states[1].prevalence, HALF);
        assert_eq!(states[1].charge_pattern, vec![-1]);
    }
}

#[test]
fn states_at_the_tolerance_are_pruned() {
    let states = solve_point(&[GroupChargeOptions::NeuOrNeg], &[HALF], HALF);
    assert!(states.is_empty());
}

#[test]
fn low_branches_come_before_high_branches() {
    let seq = [GroupChargeOptions::PosOrNeu, GroupChargeOptions::NeuOrNeg];
    let states = solve_point(&seq, &[HALF, HALF], 0);
    let patterns: Vec<Vec<i32>> = states.iter().map(|s| s.charge_pattern.clone()).collect();
    assert_eq!(patterns, vec![vec![1, 0], vec![0, 0], vec![1, -1], vec![0, -1]]);
    for s in &states {
        assert_eq!(s.prevalence, PREVALENCE_SCALE / 4);
    }
}

#[test]
fn high_branch_takes_the_rest_of_the_prevalence() {
    let states = solve_point(&[GroupChargeOptions::PosOrNeu], &[1], 0);
    // 10^18 * 1 / 10^18 == 1 goes to the low-pH branch.
    assert_eq!(states[0].prevalence, 1);
    assert_eq!(states[1].prevalence, PREVALENCE_SCALE - 1);
    let states = solve_point(&[GroupChargeOptions::PosOrNeu], &[PREVALENCE_SCALE], 0);
    assert_eq!(states.len(), 1);
    assert_eq!(states[0].charge_pattern, vec![1]);
}

#[test]
fn zero_tolerance_keeps_all_probability() {
    let seq = [
        GroupChargeOptions::PosOrNeu,
        GroupChargeOptions::NeuOrNeg,
        GroupChargeOptions::NeuOrNeg,
        GroupChargeOptions::PosOrNeu,
    ];
    let coeffs: Vec<u64> = [3.9, 4.1, 10.5, 8.0].iter().map(|&pka| low_ph_fraction(pka, 7.0)).collect();
    let states = solve_point(&seq, &coeffs, 0);
    assert_eq!(total(&states), PREVALENCE_SCALE);
    assert!(states.len() <= 16);
}

#[test]
fn larger_tolerance_never_adds_states() {
    let seq = [
        GroupChargeOptions::PosOrNeu,
        GroupChargeOptions::NeuOrNeg,
        GroupChargeOptions::NeuOrNeg,
        GroupChargeOptions::PosOrNeu,
        GroupChargeOptions::NeuOrNeg,
    ];
    let coeffs: Vec<u64> = [3.9, 4.1, 6.0, 8.0, 10.5].iter().map(|&pka| low_ph_fraction(pka, 6.0)).collect();
    let mut previous = usize::MAX;
    for tol in [0, PREVALENCE_SCALE / 1000, PREVALENCE_SCALE / 100, PREVALENCE_SCALE / 10, HALF] {
        let states = solve_point(&seq, &coeffs, tol);
        assert!(states.len() <= previous);
        assert!(states.iter().all(|s| s.prevalence > tol));
        assert!(total(&states) <= PREVALENCE_SCALE);
        previous = states.len();
    }
}

#[test]
fn aggregation_sums_by_net_charge() {
    let seq = [GroupChargeOptions::PosOrNeu, GroupChargeOptions::NeuOrNeg];
    let distro = solve_range(&seq, &[vec![HALF, HALF]], 0);
    assert_eq!(distro.len(), 1);
    assert_eq!(distro[0].len(), 3);
    assert_eq!(distro[0][&1], PREVALENCE_SCALE / 4);
    assert_eq!(distro[0][&0], PREVALENCE_SCALE / 2);
    assert_eq!(distro[0][&-1], PREVALENCE_SCALE / 4);
}

#[test]
fn scan_keeps_order_and_duplicates() {
    let seq = [GroupChargeOptions::NeuOrNeg, GroupChargeOptions::NeuOrNeg];
    let table = vec![
        vec![PREVALENCE_SCALE, PREVALENCE_SCALE],
        vec![0, 0],
        vec![HALF, HALF],
        vec![0, 0],
    ];
    let distro = solve_range(&seq, &table, 0);
    assert_eq!(distro.len(), 4);
    assert_eq!(distro[0].len(), 1);
    assert_eq!(distro[0][&0], PREVALENCE_SCALE);
    assert_eq!(distro[1].len(), 1);
    assert_eq!(distro[1][&-2], PREVALENCE_SCALE);
    assert_eq!(distro[2][&-1], PREVALENCE_SCALE / 2);
    assert_eq!(distro[3], distro[1]);
    assert!(solve_range(&seq, &[], 0).is_empty());
}

#[test]
fn end_to_end_single_acid_over_three_points() {
    let grid = build_ph_grid(3000, 5000, 1000).unwrap();
    assert_eq!(grid, vec![3000, 4000, 5000]);
    let table: Vec<Vec<u64>> = grid.iter().map(|&ph| vec![low_ph_fraction(4.0, ph as f64 / 1000.0)]).collect();
    let tol = PREVALENCE_SCALE / 100;
    let distro = solve_range(&[GroupChargeOptions::NeuOrNeg], &table, tol);
    assert_eq!(distro.len(), 3);
    let p = |i: usize, q: i32| *distro[i].get(&q).unwrap_or(&0) as f64 / PREVALENCE_SCALE as f64;
    assert!(p(0, 0) > 0.9);
    assert!(p(2, -1) > 0.9);
    assert!((p(1, 0) - 0.5).abs() < 1e-6);
    assert!((p(1, -1) - 0.5).abs() < 1e-6);
}

#[test]
fn grid_overshoots_the_upper_bound() {
    assert_eq!(build_ph_grid(2000, 2500, 300), Ok(vec![2000, 2300, 2600]));
}

#[test]
fn grid_step_equal_to_the_range() {
    assert_eq!(build_ph_grid(2000, 2500, 500), Ok(vec![2000, 2500]));
    assert_eq!(build_ph_grid(0, 1000, 250), Ok(vec![0, 250, 500, 750, 1000]));
}

#[test]
fn grid_refuses_bad_ranges() {
    assert_eq!(build_ph_grid(2500, 2000, 100), Err(PhRangeError::Boundaries));
    assert_eq!(build_ph_grid(2000, 2000, 100), Err(PhRangeError::Boundaries));
    assert_eq!(build_ph_grid(2000, 2500, 600), Err(PhRangeError::StepSize));
    assert_eq!(build_ph_grid(2000, 2500, 0), Err(PhRangeError::StepSize));
    assert_eq!(build_ph_grid(2000, 2500, -100), Err(PhRangeError::StepSize));
}

#[test]
fn site_literal_fields_are_trimmed() {
    assert_eq!(parse_site_literal(" NeuOrNeg , 4.0 "), Ok((GroupChargeOptions::NeuOrNeg, "4.0")));
    assert_eq!(parse_site_literal("PosOrNeu,10.5"), Ok((GroupChargeOptions::PosOrNeu, "10.5")));
    assert_eq!(parse_site_literal("PosOrNeu,"), Ok((GroupChargeOptions::PosOrNeu, "")));
}

#[test]
fn site_literal_needs_two_fields() {
    assert_eq!(
        parse_site_literal("NeuOrNeg,4.0,1"),
        Err("Unable to parse \"NeuOrNeg,4.0,1\"! More than two elements detected!".to_string())
    );
    assert_eq!(
        parse_site_literal("NeuOrNeg"),
        Err("Unable to parse \"NeuOrNeg\"! More than two elements detected!".to_string())
    );
}

#[test]
fn site_literal_needs_a_behaviour() {
    assert_eq!(
        parse_site_literal(" Acid ,4.0"),
        Err("Unable to deserialize \"Acid\" to GroupChargeOptions".to_string())
    );
}

#[test]
fn split_text_keeps_empty_pieces() {
    assert_eq!(split_text("a,,b,", ','), vec!["a", "", "b", ""]);
    assert_eq!(split_text("", ','), vec![""]);
    assert_eq!(split_text("abc", ':'), vec!["abc"]);
}

#[test]
fn config_line_with_two_values() {
    let line = parse_config_line(3, " G : 3.1 , 8.0 ").unwrap();
    assert_eq!(line.name, "G");
    assert_eq!(line.values, vec!["3.1", "8.0"]);
    assert_eq!(line.gco, None);
}

#[test]
fn config_line_with_a_side_chain() {
    let line = parse_config_line(7, "D: 3.1, 8.0, 3.9, NeuOrNeg").unwrap();
    assert_eq!(line.name, "D");
    assert_eq!(line.values, vec!["3.1", "8.0", "3.9"]);
    assert_eq!(line.gco, Some(GroupChargeOptions::NeuOrNeg));
}

#[test]
fn config_line_errors() {
    assert_eq!(
        parse_config_line(2, "D 3.1, 8.0").err(),
        Some("[ Config::build ] Invalid line syntax at line index 2 (line value: \"D 3.1, 8.0\")".to_string())
    );
    assert_eq!(
        parse_config_line(11, "D: 3.1: 8.0").err(),
        Some("[ Config::build ] Invalid line syntax at line index 11 (line value: \"D: 3.1: 8.0\")".to_string())
    );
    assert_eq!(
        parse_config_line(4, "D: 3.1, 8.0, 3.9").err(),
        Some("[ Config::build ] Invalid number of group values at line index 4 (line value: \"D: 3.1, 8.0, 3.9\")"
            .to_string())
    );
    assert_eq!(
        parse_config_line(9, "D: 3.1, 8.0, 3.9, Acidic").err(),
        Some("[ Config::build ] Invalig group charge option at line index 9 (line value: \"Acidic\")".to_string())
    );
}

#[test]
fn registry_keys_and_duplicates() {
    let mut reg = Registry::new();
    assert_eq!(insert_group(&mut reg, "CT-", "G", GroupChargeOptions::NeuOrNeg, 0, 1), Ok(()));
    assert_eq!(insert_group(&mut reg, "NT-", "G", GroupChargeOptions::PosOrNeu, 1, 1), Ok(()));
    assert_eq!(insert_group(&mut reg, "", "D", GroupChargeOptions::NeuOrNeg, 2, 2), Ok(()));
    assert_eq!(reg.entries.len(), 3);
    assert_eq!(reg.entries[0].0, "CT-G");
    assert_eq!(reg.entries[1].0, "NT-G");
    assert_eq!(reg.find_slot("NT-G"), Some(1));
    assert_eq!(reg.find_slot("G"), None);
    assert_eq!(
        insert_group(&mut reg, "CT-", "G", GroupChargeOptions::PosOrNeu, 3, 14),
        Err("[ Config::build ] Key CT-G already exists at line index 14!".to_string())
    );
    assert_eq!(reg.entries.len(), 3);
}

#[test]
fn registry_lookup_skips_unknown_residues() {
    let mut reg = Registry::new();
    insert_group(&mut reg, "", "D", GroupChargeOptions::NeuOrNeg, 7, 0).unwrap();
    insert_group(&mut reg, "", "K", GroupChargeOptions::PosOrNeu, 4, 1).unwrap();
    insert_group(&mut reg, "CT-", "A", GroupChargeOptions::NeuOrNeg, 9, 2).unwrap();
    assert_eq!(parse_sequence(&reg, b"DAKXD"), vec![7, 4, 7]);
    assert_eq!(parse_sequence(&reg, b""), Vec::<usize>::new());
    assert_eq!(reg.find_code_slot(b'K'), Some(4));
    assert_eq!(reg.find_code_slot(b'A'), None);
}

#[test]
fn registry_lines_drop_blank_and_comment_lines() {
    let lines = vec!["# header", "", "G: 2.3, 9.6", "#x", "D: 2.0, 9.9, 3.9, NeuOrNeg"];
    assert_eq!(valid_lines(&lines), Ok(vec![(2, "G: 2.3, 9.6"), (4, "D: 2.0, 9.9, 3.9, NeuOrNeg")]));
    let none = vec!["", "# only comments"];
    assert_eq!(
        valid_lines(&none),
        Err("[ Config::build ] The config file does not contain any valid lines!".to_string())
    );
    assert!(valid_lines(&Vec::new()).is_err());
}

#[test]
fn site_literal_trims_unicode_white_space() {
    assert_eq!(
        parse_site_literal("\u{3000}NeuOrNeg\u{a0},\t4.0\u{2029}\n"),
        Ok((GroupChargeOptions::NeuOrNeg, "4.0"))
    );
    assert_eq!(
        parse_site_literal("NeuOrNeg\u{200b},4.0"),
        Err("Unable to deserialize \"NeuOrNeg\u{200b}\" to GroupChargeOptions".to_string())
    );
}
