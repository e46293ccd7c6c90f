use lot::cons::ErrCode;
use lot::game::base::{GameFactory, Ticket};
use lot::game::draw::{DrawFactory, DrawSummary, PrintFactory};
use lot::game::draw::sports::{basketball_option_wins, get_margin_option};
use lot::game::parlay::{get_count, get_pass_levels};
use lot::game::term::needs_refund_at_end;
use lot::util::MathUtil;
use lot::game::draw::settle::settle;
use lot::game::draw::{DrawJcd0101, DrawJcd0201, DrawJcd0301, DrawJcd0401, DrawJcd0501};
use lot::game::validate::{DltHelper, ValidateFactory};
use lot::util::NumberUtil;
use std::collections::BTreeMap;

fn dlt_gl_map() -> BTreeMap<i64, (i64, i64)> {
    let mut map = BTreeMap::new();
    for i in 1..14 {
        let lev = i as i64;
        let bonus = lev * 100;
        map.insert(lev, (bonus, bonus));
    }
    map
}

fn demo_stub(first: &str, second: &str) -> String {
    format!(
        "中国体育彩票演示票\n演示票竞彩足球胜平负   单场固定\n200243-945712-189922-67 FD362CCE 00546858\n─────────────────────\n周日001\n主队:皇家马德里 Vs 客队:巴塞罗那\n{}\n周日002\n主队:皇家马德里 Vs 客队:巴塞罗那\n{}\n",
        first, second
    )
}

#[test]
fn draw_dlt() {
    let draw_number_str = "01,02,03,04,05|01,02";
    let draw_number = NumberUtil::to_int_array(draw_number_str);
    let ticket = Ticket::new(1_i64, 200, 10, 10, 1, 1, 200, "03,04,05,09,10|02,03");
    let rst = DrawFactory::new().draw(&ticket, &draw_number, &dlt_gl_map());
    assert!(rst.is_ok());
    let s = rst.unwrap();
    println!("{} {} {:?}", s.bonus, s.bonus_after_tax, s.detail);
}

#[test]
fn validate_dlt() {
    let vf = ValidateFactory::new();
    let ticket = Ticket::new(1_i64, 100, 10, 10, 1, 1, 200, "01,02,03,04,05,06|01");
    let rst = vf.validate(&ticket);
    assert!(rst.is_ok());
    assert!(rst.unwrap() == (1));

    let ticket = Ticket::new(1_i64, 100, 10, 10, 2, 1, 400, "01,02,03,04,05,06|01;01,02,03,04,05,26|10");
    let rst = vf.validate(&ticket);
    assert!(rst.is_ok());
    assert!(rst.unwrap() == (2));

    let ticket = Ticket::new(1_i64, 100, 10, 10, 6, 1, 1200, "01,02,03,04,05,06|01;01,02,03,04,05,26|10;01,02,03,04,05,26|10;01,02,03,04,05,26|10;01,02,03,04,05,26|10;01,02,03,04,05,26|10");
    let rst = vf.validate(&ticket);
    assert!(rst.is_err());
    assert!(rst.err().unwrap() == ErrCode::CountBtFive as i32);

    let ticket = Ticket::new(1_i64, 200, 10, 10, 1, 1, 200, "01,02,03,04,05|01,02");
    let rst = vf.validate(&ticket);
    assert!(rst.is_ok());
    assert!(rst.unwrap() == (1));

    let ticket = Ticket::new(1_i64, 200, 10, 20, 3, 1, 600, "01,02,03,04,05|01,02,03");
    let rst = vf.validate(&ticket);
    assert!(rst.is_ok());
    assert!(rst.unwrap() == (3));

    let ticket = Ticket::new(1_i64, 200, 10, 20, 18, 1, 3600, "01,02,03,04,05,09|01,02,03");
    let rst = vf.validate(&ticket);
    assert!(rst.is_ok());
    assert!(rst.unwrap() == (18));

    let ticket = Ticket::new(1_i64, 200, 10, 30, 2, 1, 400, "02,03,04,05,09|01$02,03");
    let rst = vf.validate(&ticket);
    assert!(rst.is_ok());
    assert!(rst.unwrap() == (2));

    let ticket = Ticket::new(1_i64, 200, 10, 30, 4, 1, 800, "03,04,05,09$01,10|01$02,03");
    let rst = vf.validate(&ticket);
    assert!(rst.is_ok());
    assert!(rst.unwrap() == (4));
}

#[test]
fn validate_jcd() {
    let vf = ValidateFactory::new();
    let ticket = Ticket::new(1_i64, 202, 1, 1, 1, 1, 200, "20121029002:3|1*1");
    let rst = vf.validate(&ticket);
    assert!(rst.is_ok());
    assert!(rst.unwrap() == (1));

    let ticket = Ticket::new(1_i64, 202, 1, 1, 3, 1, 600, "20121029002:3,1,0|1*1");
    let rst = vf.validate(&ticket);
    assert!(rst.is_ok());
    assert!(rst.unwrap() == (3));

    let ticket = Ticket::new(1_i64, 202, 3, 1, 3, 1, 600, "20121029002:1,3,5|1*1");
    let rst = vf.validate(&ticket);
    assert!(rst.is_ok());
    assert!(rst.unwrap() == (3));
}

#[test]
fn validate_jcc() {
    let vf = ValidateFactory::new();
    let ticket = Ticket::new(1_i64, 201, 1, 2, 4, 1, 800, "20121029002:3,1;20121029002:3,1|2*1");
    let rst = vf.validate(&ticket);
    assert!(rst.is_ok());
    assert!(rst.unwrap() == (4));

    let ticket = Ticket::new(1_i64, 201, 1, 2, 9, 1, 1800, "20121029002:3,1,0;20121029002:3,1,0|2*1");
    let rst = vf.validate(&ticket);
    assert!(rst.is_ok());
    assert!(rst.unwrap() == (9));

    let ticket = Ticket::new(1_i64, 201, 2, 2, 4, 1, 800, "20121029002:3,1;20121029002:3,1|2*1");
    let rst = vf.validate(&ticket);
    assert!(rst.is_ok());
    assert!(rst.unwrap() == (4));

    let ticket = Ticket::new(1_i64, 201, 3, 2, 4, 1, 800, "20121029002:3,1;20121029002:3,1|2*1");
    let rst = vf.validate(&ticket);
    assert!(rst.is_ok());
    assert!(rst.unwrap() == (4));

    let ticket = Ticket::new(1_i64, 201, 4, 2, 4, 1, 800, "20121029002:03,01;20121029002:30,10|2*1");
    let rst = vf.validate(&ticket);
    assert!(rst.is_ok());
    assert!(rst.unwrap() == (4));

    let ticket = Ticket::new(1_i64, 201, 5, 2, 4, 1, 800, "20121029002:03,11;20121029002:33,00|2*1");
    let rst = vf.validate(&ticket);
    assert!(rst.is_ok());
    assert!(rst.unwrap() == (4));

    let ticket = Ticket::new(1_i64, 201, 10, 2, 4, 1, 800, "20121029002:01:3,1;20121029002:02:3,0|2*1");
    let rst = vf.validate(&ticket);
    assert!(rst.is_ok());
    assert!(rst.unwrap() == (4));
}

#[test]
fn validate_errors_name_the_missing_part() {
    let vf = ValidateFactory::new();
    let t = Ticket::new(1, 999, 10, 10, 1, 1, 200, "01,02,03,04,05|01,02");
    assert_eq!(vf.validate(&t), Err(ErrCode::GameNotExists as i32));
    let t = Ticket::new(1, 200, 99, 10, 1, 1, 200, "01,02,03,04,05|01,02");
    assert_eq!(vf.validate(&t), Err(ErrCode::PlayTypeNotExists as i32));
    let t = Ticket::new(1, 200, 10, 99, 1, 1, 200, "01,02,03,04,05|01,02");
    assert_eq!(vf.validate(&t), Err(ErrCode::BetTypeNotExists as i32));
    // The basketball game exists but has no validation.
    let t = Ticket::new(1, 301, 1, 1, 1, 1, 200, "20121029002:3|1*1");
    assert_eq!(vf.validate(&t), Err(ErrCode::GameNotExists as i32));
    // The pick-three sum bet type is keyed 3 but has the id 4.
    let t = Ticket::new(1, 203, 1, 3, 1, 1, 200, "1|2|3");
    assert_eq!(vf.validate(&t), Err(ErrCode::GameNotExists as i32));
}

#[test]
fn validate_amount_and_count_must_match() {
    let vf = ValidateFactory::new();
    let t = Ticket::new(1, 202, 1, 1, 3, 1, 300, "20121029002:3,1,0|1*1");
    assert_eq!(vf.validate(&t), Err(ErrCode::AmountIsWrong as i32));
    let t = Ticket::new(1, 202, 1, 1, 2, 1, 600, "20121029002:3,1,0|1*1");
    assert_eq!(vf.validate(&t), Err(ErrCode::AmountIsWrong as i32));
    let t = Ticket::new(1, 202, 1, 1, 3, 2, 1200, "20121029002:3,1,0|1*1");
    assert_eq!(vf.validate(&t), Ok(3));
    let t = Ticket::new(1, 100, 10, 10, 1, 1, 300, "01,02,03,04,05,06|01");
    assert_eq!(vf.validate(&t), Err(ErrCode::AmountIsWrong as i32));
    let t = Ticket::new(1, 200, 60, 10, 1, 1, 300, "01,02,03,04,05|01,02");
    assert_eq!(vf.validate(&t), Ok(1));
}

#[test]
fn validate_numbers() {
    let vf = ValidateFactory::new();
    let nw = Err(ErrCode::NumberIsWrong as i32);
    let t = Ticket::new(1, 200, 10, 10, 1, 1, 200, "01,02,03,04,05|01,13");
    assert_eq!(vf.validate(&t), nw);
    let t = Ticket::new(1, 200, 10, 10, 1, 1, 200, "02,01,03,04,05|01,02");
    assert_eq!(vf.validate(&t), nw);
    let t = Ticket::new(1, 200, 10, 10, 1, 1, 200, "01,02,03,04|01,02");
    assert_eq!(vf.validate(&t), nw);
    let t = Ticket::new(1, 202, 1, 1, 1, 1, 200, "20121029002:5|1*1");
    assert_eq!(vf.validate(&t), nw);
    let t = Ticket::new(1, 202, 1, 1, 1, 1, 200, "2012102900:3|1*1");
    assert_eq!(vf.validate(&t), nw);
    let t = Ticket::new(1, 202, 3, 1, 1, 1, 200, "20121029002:8|1*1");
    assert_eq!(vf.validate(&t), nw);
    let t = Ticket::new(1, 202, 4, 1, 1, 1, 200, "20121029002:66|1*1");
    assert_eq!(vf.validate(&t), nw);
    let t = Ticket::new(1, 202, 4, 1, 1, 1, 200, "20121029002:99|1*1");
    assert_eq!(vf.validate(&t), Ok(1));
    let t = Ticket::new(1, 202, 5, 1, 1, 1, 200, "20121029002:32|1*1");
    assert_eq!(vf.validate(&t), nw);
    let t = Ticket::new(1, 201, 1, 2, 4, 1, 800, "20121029002:3,5;20121029002:3,1|2*1");
    assert_eq!(vf.validate(&t), nw);
    let t = Ticket::new(1, 201, 10, 2, 4, 1, 800, "20121029002:07:3,1;20121029002:02:3,0|2*1");
    assert_eq!(vf.validate(&t), nw);
}

#[test]
fn validate_parlay_counts() {
    let vf = ValidateFactory::new();
    // 3*4: every pair of the three matches (4 + 2 + 2 bets) and all three (4 bets).
    let t = Ticket::new(1, 201, 1, 2, 12, 1, 2400, "20121029001:3,1;20121029002:3,1;20121029003:3|3*4");
    assert_eq!(vf.validate(&t), Ok(12));
    // 3*1: one bet per choice of an option in each of the three matches.
    let t = Ticket::new(1, 201, 1, 2, 4, 1, 800, "20121029001:3,1;20121029002:3,1;20121029003:3|3*1");
    assert_eq!(vf.validate(&t), Ok(4));
    let t = Ticket::new(1, 201, 1, 2, 12, 1, 2400, "20121029001:3,1,0;20121029002:3;20121029003:3,1;20121029004:1,0|4*1");
    assert_eq!(vf.validate(&t), Ok(12));
}

#[test]
fn validate_pick_three() {
    let vf = ValidateFactory::new();
    let t = Ticket::new(1, 203, 1, 1, 2, 1, 400, "1|2|3;4|5|6");
    assert_eq!(vf.validate(&t), Ok(2));
    let t = Ticket::new(1, 203, 1, 1, 6, 1, 1200, "1|2|3;1|2|3;1|2|3;1|2|3;1|2|3;1|2|3");
    assert_eq!(vf.validate(&t), Err(ErrCode::CountBtFive as i32));
    let t = Ticket::new(1, 203, 1, 1, 1, 1, 200, "1|2|34");
    assert_eq!(vf.validate(&t), Err(ErrCode::NumberIsWrong as i32));
    let t = Ticket::new(1, 203, 1, 2, 4, 1, 800, "1,2|3|4,5");
    assert_eq!(vf.validate(&t), Ok(4));
    let t = Ticket::new(1, 203, 1, 2, 4, 1, 800, "2,1|3|4,5");
    assert_eq!(vf.validate(&t), Err(ErrCode::NumberIsWrong as i32));
    let t = Ticket::new(1, 203, 1, 2, 1, 1, 200, "1|2|3");
    assert_eq!(vf.validate(&t), Err(ErrCode::NumberIsWrong as i32));
}

#[test]
fn dlt_format_check() {
    assert_eq!(DltHelper::check_format("01,02,03,04,05|01,02"), Ok((5, 2)));
    assert_eq!(DltHelper::check_format("01,02,03,04,36|01,02"), Err(ErrCode::NumberIsWrong as i32));
    assert_eq!(DltHelper::check_format("01,02,03,04,05|02,01"), Err(ErrCode::NumberIsWrong as i32));
}

#[test]
fn settle_totals_are_level_sums() {
    let mut gl: BTreeMap<i64, (i64, i64)> = BTreeMap::new();
    gl.insert(1, (1000, 800));
    gl.insert(2, (300, 240));
    gl.insert(3, (10, 10));
    let awards = vec![(2, 3), (1, 1), (3, 0), (2, 2), (3, -1)];
    let s = settle(&gl, &awards);
    assert_eq!(s.detail.len(), 2);
    assert_eq!(s.detail.get(&2), Some(&(2, 5, 1500, 1200)));
    assert_eq!(s.detail.get(&1), Some(&(1, 1, 1000, 800)));
    let sum: i64 = s.detail.values().map(|d| d.2).sum();
    let sum_tax: i64 = s.detail.values().map(|d| d.3).sum();
    assert_eq!((s.bonus, s.bonus_after_tax), (sum, sum_tax));
    assert_eq!((s.bonus, s.bonus_after_tax), (2500, 2000));
}

fn level(s: &DrawSummary, lev: i32) -> Option<(i32, i32, i64, i64)> {
    s.detail.get(&lev).copied()
}

#[test]
fn draw_dlt_single_levels() {
    let df = DrawFactory::new();
    let draw = NumberUtil::to_int_array("01,02,03,04,05|01,02");
    let gl = dlt_gl_map();
    let t = Ticket::new(1, 200, 10, 10, 1, 1, 200, "03,04,05,09,10|02,03");
    let s = df.draw(&t, &draw, &gl).unwrap();
    assert_eq!((s.bonus, s.bonus_after_tax), (500, 500));
    assert_eq!(level(&s, 5), Some((5, 1, 500, 500)));
    assert_eq!(s.detail.len(), 1);

    let t = Ticket::new(1, 200, 60, 10, 2, 1, 600, "01,02,03,04,05|01,02;01,02,03,04,05|01,02");
    let s = df.draw(&t, &draw, &gl).unwrap();
    assert_eq!(s.bonus, 2 * (100 + 700));
    assert_eq!(level(&s, 1), Some((1, 2, 200, 200)));
    assert_eq!(level(&s, 7), Some((7, 2, 1400, 1400)));

    let t = Ticket::new(1, 200, 10, 10, 1, 1, 200, "06,07,08,09,10|03,04");
    let s = df.draw(&t, &draw, &gl).unwrap();
    assert_eq!(s.bonus, 0);
    assert!(s.detail.is_empty());
}

#[test]
fn draw_dlt_multiple_and_banker() {
    let df = DrawFactory::new();
    let draw = NumberUtil::to_int_array("01,02,03,04,05|01,02");
    let gl = dlt_gl_map();
    let t = Ticket::new(1, 200, 10, 20, 3, 1, 600, "01,02,03,04,05|01,02,03");
    let s = df.draw(&t, &draw, &gl).unwrap();
    assert_eq!(level(&s, 1), Some((1, 1, 100, 100)));
    assert_eq!(level(&s, 2), Some((2, 2, 400, 400)));
    assert_eq!(s.bonus, 500);

    // Red 01 fixed with four of 02..06: one bet hits five reds, four hit four.
    let t = Ticket::new(1, 200, 10, 30, 5, 1, 1000, "01$02,03,04,05,06|01,02");
    let s = df.draw(&t, &draw, &gl).unwrap();
    assert_eq!(level(&s, 1), Some((1, 1, 100, 100)));
    assert_eq!(level(&s, 3), Some((3, 4, 1200, 1200)));
    assert_eq!(s.bonus, 1300);
}

#[test]
fn draw_errors_name_the_missing_part() {
    let df = DrawFactory::new();
    let draw = NumberUtil::to_int_array("01,02,03,04,05|01,02");
    let gl = dlt_gl_map();
    let t = Ticket::new(1, 999, 10, 10, 1, 1, 200, "01,02,03,04,05|01,02");
    assert_eq!(df.draw(&t, &draw, &gl).err(), Some(ErrCode::GameNotExists as i32));
    let t = Ticket::new(1, 200, 11, 10, 1, 1, 200, "01,02,03,04,05|01,02");
    assert_eq!(df.draw(&t, &draw, &gl).err(), Some(ErrCode::PlayTypeNotExists as i32));
    let t = Ticket::new(1, 200, 10, 11, 1, 1, 200, "01,02,03,04,05|01,02");
    assert_eq!(df.draw(&t, &draw, &gl).err(), Some(ErrCode::BetTypeNotExists as i32));
}

#[test]
fn print_numbers_of_parlays() {
    let pf = PrintFactory::new();
    let stub = demo_stub("平@12.0元", "胜@12.0元+平@12.0元");
    assert_eq!(
        pf.get_print_number(201, 1, 2, "20121115001:1;20121115002:3,1|2*1", &stub),
        Ok("20121115001:1@12.0;20121115002:3@12.0,1@12.0|2*1".to_string())
    );
    assert_eq!(
        pf.get_print_number(201, 2, 2, "20121115001:1;20121115002:3,1|2*1", &stub),
        Ok("20121115001:1@12.0;20121115002:3@12.0,1@12.0|2*1".to_string())
    );
    let stub = demo_stub("(1)@12.9元", "(1)@12.0元+(7+)@2.0元");
    assert_eq!(
        pf.get_print_number(201, 3, 2, "20121115001:1;20121115002:1,7|2*1", &stub),
        Ok("20121115001:1@12.9;20121115002:1@12.0,7@2.0|2*1".to_string())
    );
    let stub = demo_stub("(负其它)@12.9元", "(1:2)@12.0元+(2:3)@2.0元");
    assert_eq!(
        pf.get_print_number(201, 4, 2, "20121115001:09;20121115002:12,23|2*1", &stub),
        Ok("20121115001:09@12.9;20121115002:12@12.0,23@2.0|2*1".to_string())
    );
    let stub = demo_stub("胜胜@12.9元", "平平@12.0元+胜胜@2.0元");
    assert_eq!(
        pf.get_print_number(201, 5, 2, "20121115001:33;20121115002:11,33|2*1", &stub),
        Ok("20121115001:33@12.9;20121115002:11@12.0,33@2.0|2*1".to_string())
    );
    let stub = demo_stub("胜胜@12.9元", "平@12.0元+胜@2.0元");
    assert_eq!(
        pf.get_print_number(201, 10, 2, "20121115001:05:33;20121115002:01:1,3|2*1", &stub),
        Ok("20121115001:05:33@12.9;20121115002:01:1@12.0,3@2.0|2*1".to_string())
    );
}

#[test]
fn print_numbers_of_single_matches() {
    let pf = PrintFactory::new();
    let stub = demo_stub("胜@1.50元+平@3.20元", "");
    assert_eq!(
        pf.get_print_number(202, 1, 1, "20121115001:3,1|1*1", &stub),
        Ok("20121115001:3@1.50,1@3.20|1*1".to_string())
    );
    let stub = demo_stub("(0)@9.00元+(7+)@20.0元", "");
    assert_eq!(
        pf.get_print_number(202, 3, 1, "20121115001:7,0|1*1", &stub),
        Ok("20121115001:7@20.0,0@9.00|1*1".to_string())
    );
    // A rate without the currency sign loses its last three characters.
    let stub = demo_stub("胜@12.50", "");
    assert_eq!(
        pf.get_print_number(202, 2, 1, "20121115001:3|1*1", &stub),
        Ok("20121115001:3@12|1*1".to_string())
    );
    assert_eq!(pf.get_print_number(999, 1, 1, "x", "y"), Err(ErrCode::GameNotExists as i32));
    assert_eq!(pf.get_print_number(202, 9, 1, "x", "y"), Err(ErrCode::PlayTypeNotExists as i32));
    assert_eq!(pf.get_print_number(202, 1, 9, "x", "y"), Err(ErrCode::BetTypeNotExists as i32));
}

#[test]
fn games_of_the_system() {
    let gf = GameFactory::new();
    assert_eq!(gf.get_game_list().len(), 6);
    let g = gf.get_game_by_id(200).ok().unwrap();
    assert_eq!(g.get_code(), "DLT");
    assert_eq!(g.get_name(), "大乐透");
    let p = g.get_play_type(60).ok().unwrap();
    assert_eq!(p.get_price(), 300);
    assert_eq!(p.get_bet_type(30).ok().unwrap().get_id(), 30);
    assert_eq!(p.get_bet_type(40).err(), Some(ErrCode::BetTypeNotExists as i32));
    assert_eq!(g.get_play_type(70).err(), Some(ErrCode::PlayTypeNotExists as i32));
    assert_eq!(gf.get_game_by_id(7).err(), Some(ErrCode::GameNotExists as i32));
    let t = Ticket::new(9, 200, 60, 30, 4, 2, 2400, "01$02");
    assert_eq!(
        (t.get_game_id(), t.get_play_type(), t.get_bet_type(), t.get_icount(), t.get_multiple(), t.get_amount()),
        (200, 60, 30, 4, 2, 2400)
    );
    assert_eq!(t.get_number(), "01$02");
}

fn basketball_stub(info1: &str, rate1: &str, info2: &str, rate2: &str) -> String {
    format!("中国体育彩票\n竞彩篮球\n票号\n───\n{}\n主队 Vs 客队\n{}\n{}\n主队 Vs 客队\n{}\n", info1, rate1, info2, rate2)
}

#[test]
fn print_numbers_of_basketball() {
    let pf = PrintFactory::new();
    let stub = basketball_stub("周一001 固定奖让分:元-4.5", "胜@1.80元", "周一002 固定奖让分:元+2.5", "负@1.70元+胜@2.00元");
    assert_eq!(
        pf.get_print_number(301, 2, 2, "20121115001:3;20121115002:0,3|2*1", &stub),
        Ok("20121115001:3(-4.5)@1.80;20121115002:0(+2.5)@1.70,3(+2.5)@2.00|2*1".to_string())
    );
    let stub = basketball_stub("周一001", "(主1-5)@3.10元+(客26+)@50.0元", "", "");
    assert_eq!(
        pf.get_print_number(301, 3, 1, "20121115001:01,16|1*1", &stub),
        Ok("20121115001:01@3.10,16@50.0|1*1".to_string())
    );
    let stub = basketball_stub("周一001 固定奖预设总分:165.5", "大@1.75元+小@1.85元", "", "");
    assert_eq!(
        pf.get_print_number(301, 4, 2, "20121115001:2,1|1*1", &stub),
        Ok("20121115001:2(165.5)@1.85,1(165.5)@1.75|1*1".to_string())
    );
    let stub = basketball_stub("周一001", "胜@1.80元", "周一002 固定奖让分:元+2.5", "负@1.70元");
    assert_eq!(
        pf.get_print_number(301, 10, 2, "20121115001:01:3;20121115002:02:0|2*1", &stub),
        Ok("20121115001:01:3@1.80;20121115002:02:0(+2.5)@1.70|2*1".to_string())
    );
    // A play the printer does not know prints as nothing.
    let stub = basketball_stub("周一001", "胜@1.80元", "", "");
    assert_eq!(
        pf.get_print_number(301, 10, 2, "20121115001:09:3|1*1", &stub),
        Ok("|1*1".to_string())
    );
}

#[test]
fn winning_options_of_match_results() {
    let d = vec![20, 20, 0, 10, 10];
    assert_eq!(DrawJcd0101.winning_option(&d), "1");
    assert_eq!(DrawJcd0201.winning_option(&d), "1");
    assert_eq!(DrawJcd0301.winning_option(&d), "4");
    assert_eq!(DrawJcd0401.winning_option(&d), "22");
    assert_eq!(DrawJcd0501.winning_option(&d), "11");
    let d = vec![20, 30, 0, 20, 10];
    assert_eq!(DrawJcd0101.winning_option(&d), "0");
    assert_eq!(DrawJcd0301.winning_option(&d), "5");
    assert_eq!(DrawJcd0401.winning_option(&d), "23");
    assert_eq!(DrawJcd0501.winning_option(&d), "30");
    let d = vec![60, 10, -10, 0, 0];
    assert_eq!(DrawJcd0201.winning_option(&d), "3");
    assert_eq!(DrawJcd0301.winning_option(&d), "7");
    assert_eq!(DrawJcd0401.winning_option(&d), "90");
    assert_eq!(DrawJcd0501.winning_option(&d), "13");
    assert_eq!(DrawJcd0401.winning_option(&vec![40, 40]), "99");
    assert_eq!(DrawJcd0401.winning_option(&vec![10, 60]), "09");
    assert_eq!(DrawJcd0301.winning_option(&vec![-15, 0]), "-1");
    assert_eq!(get_margin_option(100, 94), "02");
    assert_eq!(get_margin_option(90, 90), "11");
    assert_eq!(get_margin_option(80, 120), "16");
    assert_eq!(get_margin_option(126, 100), "06");
}

#[test]
fn sports_append_taxes_big_parlay_awards() {
    let mut s = DrawSummary::new();
    assert_eq!(s.append_taxed(1_000_000, 21, 1, true), (1_000_000, 800_000));
    assert_eq!(s.append_taxed(999_999, 21, 1, true), (999_999, 999_999));
    assert_eq!(s.append_taxed(2_000_000, 11, 1, false), (2_000_000, 2_000_000));
    assert_eq!(s.append_taxed(1_234_567, 21, 0, true), (0, 0));
    assert_eq!(s.append_taxed(1_000_003, 21, 1, true), (1_000_003, 800_002));
    assert_eq!(s.detail.get(&21), Some(&(21, 3, 3_000_002, 2_600_001)));
    assert_eq!(s.detail.get(&11), Some(&(11, 1, 2_000_000, 2_000_000)));
    assert_eq!((s.bonus, s.bonus_after_tax), (5_000_002, 4_600_001));
}

#[test]
fn basketball_options() {
    assert!(basketball_option_wins("01", "3", 102, 90, 0));
    assert!(!basketball_option_wins("01", "0", 102, 90, 0));
    assert!(basketball_option_wins("01", "0", 90, 90, 0));
    assert!(basketball_option_wins("02", "3", 90, 95, 55));
    assert!(!basketball_option_wins("02", "0", 90, 95, 55));
    assert!(basketball_option_wins("02", "0", 90, 95, -55));
    assert!(basketball_option_wins("03", "02", 100, 92, 0));
    assert!(basketball_option_wins("03", "11", 90, 90, 0));
    assert!(!basketball_option_wins("03", "01", 90, 90, 0));
    assert!(basketball_option_wins("04", "1", 100, 90, 1895));
    assert!(basketball_option_wins("04", "2", 100, 90, 1905));
    assert!(!basketball_option_wins("04", "1", 100, 90, 1905));
    assert!(!basketball_option_wins("05", "1", 100, 90, 0));
}

#[test]
fn pass_types_have_their_bets() {
    let digits = ['1', '2', '3', '4', '5', '6', '7', '8', '9'];
    let mut found = 0;
    for &m in digits.iter() {
        for &n in digits.iter() {
            if let Some(levels) = get_pass_levels(m, n) {
                found += 1;
                let mm = m.to_digit(10).unwrap() as i64;
                assert_eq!(levels.len(), 8);
                let mut bets = 0;
                for (j, &on) in levels.iter().enumerate() {
                    if on {
                        assert!((j as i64) < mm);
                        bets += MathUtil::get_c(mm, j as i64 + 1);
                    }
                }
                assert_eq!(bets, n.to_digit(10).unwrap() as i64);
            }
        }
    }
    assert_eq!(found, 24);
}

#[test]
fn parlay_count_with_empty_match() {
    let two_by_one = get_pass_levels('2', '1').unwrap();
    assert_eq!(get_count(&vec![3, 3], 2, &two_by_one), 9);
    assert_eq!(get_count(&vec![2, 2], 2, &two_by_one), 4);
    assert_eq!(get_count(&vec![3, 0], 2, &two_by_one), 0);
    let three_by_four = get_pass_levels('3', '4').unwrap();
    assert_eq!(get_count(&vec![2, 0, 3], 3, &three_by_four), 6);
    assert_eq!(get_count(&vec![2, 1, 3], 3, &three_by_four), 2 + 6 + 3 + 6);
}

#[test]
fn refund_at_end_of_sale() {
    assert!(needs_refund_at_end(200, 18001, ""));
    assert!(needs_refund_at_end(201, 20121115001, "20121115002,20121115001"));
    assert!(!needs_refund_at_end(201, 20121115003, "20121115002,20121115001"));
    assert!(needs_refund_at_end(301, 7, "117"));
    assert!(!needs_refund_at_end(301, 8, ""));
}
