use lot::cons::{get_err_map, ConsFactory, ConsNode, ErrCode, GameLevelFactory};

#[test]
fn tables_map_codes_and_ids() {
    let cf = ConsFactory::new();
    assert_eq!(cf.code_to_id("user_type", "center"), Ok(400));
    assert_eq!(cf.id_to_code("user_type", 400), Ok("center".to_string()));
    assert_eq!(cf.id_to_desc("user_type", 900), Ok("管理员"));
    assert_eq!(cf.code_to_desc("term_status", "sale"), Ok("销售中"));
    assert_eq!(cf.code_to_id("term_status", "nothing"), Err(ErrCode::ValueNotExist as i32));
    assert_eq!(cf.id_to_code("term_status", 11), Err(ErrCode::ValueNotExist as i32));
    assert!(cf.by_id("user_type", 100).is_some());
    assert!(cf.by_code("user_type", "guest").is_some());
    assert!(cf.by_code("user_type", "Guest").is_none());
}

#[test]
fn code_and_id_round_trip() {
    let cf = ConsFactory::new();
    for code in ["guest", "normal", "company", "center", "terminal", "admin"] {
        let id = cf.code_to_id("user_type", code).unwrap();
        assert_eq!(cf.id_to_code("user_type", id), Ok(code.to_string()));
    }
}

#[test]
fn errors_have_descriptions() {
    let cf = ConsFactory::new();
    assert_eq!(cf.get_err_des(ErrCode::GameNotExists as i32).map(|s| s.as_str()), Some("游戏不存在"));
    assert_eq!(cf.get_err_des(8), None);
    assert_eq!(cf.get_err(18), (18, "号码格式错误".to_string()));
    assert_eq!(cf.get_err(8), (8, "未知错误".to_string()));
    assert_eq!(cf.get_err(-5), (-5, "未知错误".to_string()));
    let m = get_err_map();
    assert_eq!(m.len(), 24);
    assert_eq!(m.get(&0).map(|s| s.as_str()), Some("操作成功"));
    assert_eq!(ErrCode::NoDbConn.code(), 24);
    assert_eq!(ErrCode::CountBtFive.code(), ErrCode::CountBtFive as i32);
}

#[test]
fn nodes_keep_their_fields() {
    let n = ConsNode::new(7, "seven", "七");
    let c = lot::cons::Cons::from_vec(vec![std::sync::Arc::new(n), std::sync::Arc::new(ConsNode::new(7, "late", "后"))]);
    let found = c.by_id(7).unwrap();
    assert!(std::sync::Arc::ptr_eq(found, c.by_code("late").unwrap()));
    assert!(c.by_code("seven").is_some());
}

#[test]
fn level_templates() {
    let glf = GameLevelFactory::new();
    let levels = glf.get_by_game_id(200).unwrap();
    assert_eq!(levels.len(), 12);
    assert_eq!((levels[3].lev, levels[3].bonus, levels[3].bonus_after_tax), (4, 20000, 20000));
    assert_eq!(levels[11].descrip, "六等奖派奖");
    assert!(glf.get_by_game_id(201).is_none());
}

#[test]
fn standard_tables_round_trip() {
    let cf = ConsFactory::new();
    let tables: [(&str, &[&str]); 3] = [
        ("province_type", &["unset", "hb", "he", "sx", "ah", "hn"]),
        ("ticket_status", &["printing", "print_err", "hit", "bonus_big_cashed", "cashed"]),
        ("moneylog_type", &["charge", "bet", "repay"]),
    ];
    for (name, codes) in tables.iter() {
        for code in codes.iter() {
            let id = cf.code_to_id(name, code).unwrap();
            assert_eq!(cf.id_to_code(name, id), Ok(code.to_string()));
            assert_eq!(cf.code_to_desc(name, code), cf.id_to_desc(name, id));
        }
    }
    assert_eq!(cf.code_to_desc("province_type", "hb"), Ok("湖北"));
    assert_eq!(cf.code_to_desc("province_type", "xx"), Err(ErrCode::ValueNotExist as i32));
}
