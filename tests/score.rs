use test_runner::event::TestOutcome;
use test_runner::score::{push_decimal, round_ratio, score_batch, SuiteSpec};

fn suite(number: &str, name: &str, points: u64) -> SuiteSpec {
    SuiteSpec {
        number: number.to_string(),
        name: name.to_string(),
        points,
        filter: String::new(),
    }
}

fn outcome(name: &str, passed: bool, diagnostic: &str) -> TestOutcome {
    TestOutcome { name: name.to_string(), passed, diagnostic: diagnostic.to_string() }
}

#[test]
fn rounds_to_nearest() {
    assert_eq!(round_ratio(100, 3), 33);
    assert_eq!(round_ratio(200, 3), 67);
    assert_eq!(round_ratio(1, 2), 1);
    assert_eq!(round_ratio(49, 100), 0);
    assert_eq!(round_ratio(50, 100), 1);
    assert_eq!(round_ratio(0, 7), 0);
    assert_eq!(round_ratio(u64::MAX, 1), u64::MAX);
    assert_eq!(round_ratio(u64::MAX, 2), u64::MAX / 2 + 1);
}

#[test]
fn rounding_twice_is_rounding_once() {
    for (num, den) in [(100u64, 3u64), (200, 3), (1, 2), (12345, 7), (0, 5)] {
        let r = round_ratio(num, den);
        assert_eq!(round_ratio(r, 1), r);
        assert_eq!(round_ratio(r * 100, 100), r);
    }
}

#[test]
fn writes_decimal_numbers() {
    for (n, text) in [(0u64, "0"), (7, "7"), (10, "10"), (12345, "12345")] {
        let mut s = String::from("x");
        push_decimal(&mut s, n);
        assert_eq!(s, format!("x{}", text));
    }
}

#[test]
fn scores_pass_and_fail_scenario() {
    let s = suite("1", "Unit", 200);
    let outcomes = vec![outcome("a", true, ""), outcome("b", false, "boom\nhere")];
    let ts = score_batch(&s, &outcomes);
    assert_eq!(ts.len(), 2);
    assert_eq!(ts[0].number, "1.1");
    assert_eq!(ts[0].name, "Unit - a");
    assert_eq!(ts[0].score, 100);
    assert_eq!(ts[0].max_score, 100);
    assert_eq!(ts[0].output, "");
    assert_eq!(ts[1].number, "1.2");
    assert_eq!(ts[1].name, "Unit - b");
    assert_eq!(ts[1].score, 0);
    assert_eq!(ts[1].max_score, 100);
    assert_eq!(ts[1].output, "boom\nhere");
}

#[test]
fn three_passing_tests_share_one_point() {
    let s = suite("4", "Edge", 100);
    let outcomes = vec![outcome("a", true, ""), outcome("b", true, ""), outcome("c", true, "")];
    let ts = score_batch(&s, &outcomes);
    assert_eq!(ts.len(), 3);
    for t in &ts {
        assert_eq!(t.max_score, 33);
        assert_eq!(t.score, 33);
    }
    assert_eq!(ts.iter().map(|t| t.max_score).sum::<u64>(), 99);
}

#[test]
fn numbers_follow_suite_number() {
    let s = suite("3", "S", 300);
    let outcomes = vec![outcome("x", true, ""), outcome("y", false, ""), outcome("z", true, "")];
    let ts = score_batch(&s, &outcomes);
    let numbers: Vec<&str> = ts.iter().map(|t| t.number.as_str()).collect();
    assert_eq!(numbers, vec!["3.1", "3.2", "3.3"]);
}

#[test]
fn numbers_go_past_nine() {
    let s = suite("2", "Many", 1200);
    let outcomes: Vec<TestOutcome> = (0..12).map(|i| outcome(&format!("t{}", i), true, "")).collect();
    let ts = score_batch(&s, &outcomes);
    assert_eq!(ts[9].number, "2.10");
    assert_eq!(ts[11].number, "2.12");
    assert_eq!(ts[11].max_score, 100);
}

#[test]
fn empty_suite_forfeits_points() {
    let s = suite("5", "None", 1000);
    let ts = score_batch(&s, &Vec::new());
    assert!(ts.is_empty());
}

#[test]
fn max_scores_add_up_to_budget() {
    for (points, n) in [(100u64, 3usize), (200, 3), (1000, 7), (5, 9), (0, 4), (250, 1)] {
        let s = suite("1", "B", points);
        let outcomes: Vec<TestOutcome> = (0..n).map(|i| outcome(&format!("t{}", i), i % 2 == 0, "")).collect();
        let ts = score_batch(&s, &outcomes);
        let total: u64 = ts.iter().map(|t| t.max_score).sum();
        assert!(total.abs_diff(points) <= n as u64);
        for t in &ts {
            assert!(t.score <= t.max_score);
        }
    }
}
