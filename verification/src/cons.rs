use vstd::prelude::*;
use std::collections::BTreeMap;
use std::sync::Arc;
use crate::text::{str_eq};

verus! {

/// The error codes of the system, numbered from 0 in this order.
#[derive(Debug, Clone, Copy, PartialEq, Eq)]
pub enum ErrCode {
    Success,
    DigestFailure,
    ApiNotExits,
    TokenExpired,
    ValueNotExist,
    NotAllowed,
    UsernameIsNull,
    UsernameWrongPattern,
    UsernameIsWrong,
    PasswordIsNull,
    PasswordWrongPattern,
    UserInfoIsWrong,
    KeyIsMissing,
    GameNotExists,
    TermStatusNotAllowed,
    AmountIsWrong,
    PlayTypeNotExists,
    BetTypeNotExists,
    NumberIsWrong,
    CountBtFive,
    BalanceNotAllowed,
    DataExpired,
    OutIdRepeat,
    DrawNumberIsWrong,
    NoDbConn,
}

/// The number of an error code: its position in the declaration.
pub open spec fn err_num(e: ErrCode) -> i32 {
    match e {
        ErrCode::Success => 0,
        ErrCode::DigestFailure => 1,
        ErrCode::ApiNotExits => 2,
        ErrCode::TokenExpired => 3,
        ErrCode::ValueNotExist => 4,
        ErrCode::NotAllowed => 5,
        ErrCode::UsernameIsNull => 6,
        ErrCode::UsernameWrongPattern => 7,
        ErrCode::UsernameIsWrong => 8,
        ErrCode::PasswordIsNull => 9,
        ErrCode::PasswordWrongPattern => 10,
        ErrCode::UserInfoIsWrong => 11,
        ErrCode::KeyIsMissing => 12,
        ErrCode::GameNotExists => 13,
        ErrCode::TermStatusNotAllowed => 14,
        ErrCode::AmountIsWrong => 15,
        ErrCode::PlayTypeNotExists => 16,
        ErrCode::BetTypeNotExists => 17,
        ErrCode::NumberIsWrong => 18,
        ErrCode::CountBtFive => 19,
        ErrCode::BalanceNotAllowed => 20,
        ErrCode::DataExpired => 21,
        ErrCode::OutIdRepeat => 22,
        ErrCode::DrawNumberIsWrong => 23,
        ErrCode::NoDbConn => 24,
    }
}

impl ErrCode {
    /// The number of this error code.
    pub fn code(self) -> (n: i32)
        ensures
            n == err_num(self),
    {
        match self {
            ErrCode::Success => 0,
            ErrCode::DigestFailure => 1,
            ErrCode::ApiNotExits => 2,
            ErrCode::TokenExpired => 3,
            ErrCode::ValueNotExist => 4,
            ErrCode::NotAllowed => 5,
            ErrCode::UsernameIsNull => 6,
            ErrCode::UsernameWrongPattern => 7,
            ErrCode::UsernameIsWrong => 8,
            ErrCode::PasswordIsNull => 9,
            ErrCode::PasswordWrongPattern => 10,
            ErrCode::UserInfoIsWrong => 11,
            ErrCode::KeyIsMissing => 12,
            ErrCode::GameNotExists => 13,
            ErrCode::TermStatusNotAllowed => 14,
            ErrCode::AmountIsWrong => 15,
            ErrCode::PlayTypeNotExists => 16,
            ErrCode::BetTypeNotExists => 17,
            ErrCode::NumberIsWrong => 18,
            ErrCode::CountBtFive => 19,
            ErrCode::BalanceNotAllowed => 20,
            ErrCode::DataExpired => 21,
            ErrCode::OutIdRepeat => 22,
            ErrCode::DrawNumberIsWrong => 23,
            ErrCode::NoDbConn => 24,
        }
    }
}

/// The description of each error number that has one.
pub open spec fn err_description(code: i32) -> Option<Seq<char>> {
    if code == 0 { Some("操作成功"@) }
    else if code == 1 { Some("加密检验失败"@) }
    else if code == 2 { Some("接口不存在"@) }
    else if code == 3 { Some("密钥已过期"@) }
    else if code == 4 { Some("值不存在"@) }
    else if code == 5 { Some("操作不允许"@) }
    else if code == 6 { Some("用户名为空"@) }
    else if code == 7 { Some("用户名格式错误"@) }
    else if code == 9 { Some("密码为空"@) }
    else if code == 10 { Some("密码格式错误"@) }
    else if code == 11 { Some("用户信息错误"@) }
    else if code == 12 { Some("缺少必要字段"@) }
    else if code == 13 { Some("游戏不存在"@) }
    else if code == 14 { Some("期次状态错误"@) }
    else if code == 15 { Some("金额错误"@) }
    else if code == 16 { Some("玩法不存在"@) }
    else if code == 17 { Some("投注方式不存在"@) }
    else if code == 18 { Some("号码格式错误"@) }
    else if code == 19 { Some("单式不能超过5注"@) }
    else if code == 20 { Some("账户金额错误"@) }
    else if code == 21 { Some("数据已经失效"@) }
    else if code == 22 { Some("外部id重复"@) }
    else if code == 23 { Some("开奖号码格式错误"@) }
    else if code == 24 { Some("无数据库连接可用"@) }
    else { None }
}

/// The map from error number to description.
pub open spec fn describes_errors(m: Map<i32, String>) -> bool {
    forall|code: i32|
        #![trigger m.contains_key(code)]
        (m.contains_key(code) <==> err_description(code) is Some) && (m.contains_key(code)
            ==> m[code]@ == err_description(code)->0)
}

fn put_err(m: &mut BTreeMap<i32, String>, code: i32, des: &str)
    ensures
        final(m)@ == old(m)@.insert(code, final(m)@[code]),
        final(m)@[code]@ == des@,
{
    m.insert(code, String::from_str(des));
}

/// The descriptions of the error codes.
pub fn get_err_map() -> (m: BTreeMap<i32, String>)
    ensures
        describes_errors(m@),
{
    let mut m: BTreeMap<i32, String> = BTreeMap::new();
    put_err(&mut m, 0, "操作成功");
    put_err(&mut m, 1, "加密检验失败");
    put_err(&mut m, 2, "接口不存在");
    put_err(&mut m, 3, "密钥已过期");
    put_err(&mut m, 4, "值不存在");
    put_err(&mut m, 5, "操作不允许");
    put_err(&mut m, 6, "用户名为空");
    put_err(&mut m, 7, "用户名格式错误");
    put_err(&mut m, 9, "密码为空");
    put_err(&mut m, 10, "密码格式错误");
    put_err(&mut m, 11, "用户信息错误");
    put_err(&mut m, 12, "缺少必要字段");
    put_err(&mut m, 13, "游戏不存在");
    put_err(&mut m, 14, "期次状态错误");
    put_err(&mut m, 15, "金额错误");
    put_err(&mut m, 16, "玩法不存在");
    put_err(&mut m, 17, "投注方式不存在");
    put_err(&mut m, 18, "号码格式错误");
    put_err(&mut m, 19, "单式不能超过5注");
    put_err(&mut m, 20, "账户金额错误");
    put_err(&mut m, 21, "数据已经失效");
    put_err(&mut m, 22, "外部id重复");
    put_err(&mut m, 23, "开奖号码格式错误");
    put_err(&mut m, 24, "无数据库连接可用");
    assert forall|code: i32| #![trigger m@.contains_key(code)]
        (m@.contains_key(code) <==> err_description(code) is Some) && (m@.contains_key(code)
            ==> m@[code]@ == err_description(code)->0) by {
    }
    m
}


/// One named value of a constant table: its id, its code and its description.
pub struct ConsNode {
    id: i32,
    code: String,
    desc: String,
}

impl View for ConsNode {
    type V = (i32, Seq<char>, Seq<char>);

    closed spec fn view(&self) -> (i32, Seq<char>, Seq<char>) {
        (self.id, self.code@, self.desc@)
    }
}

impl ConsNode {
    /// A node with the given id, code and description.
    pub fn new(id: i32, code: &str, desc: &str) -> (node: ConsNode)
        ensures
            node@ == (id, code@, desc@),
    {
        ConsNode { id: id, code: String::from_str(code), desc: String::from_str(desc) }
    }
}

/// The views of a list of shared nodes.
pub open spec fn node_views(v: Seq<Arc<ConsNode>>) -> Seq<(i32, Seq<char>, Seq<char>)> {
    v.map_values(|n: Arc<ConsNode>| (*n)@)
}

/// The last node of `nodes` with the id `id`.
pub open spec fn last_with_id(nodes: Seq<(i32, Seq<char>, Seq<char>)>, id: i32) -> Option<
    (i32, Seq<char>, Seq<char>),
>
    decreases nodes.len(),
{
    if nodes.len() == 0 {
        None
    } else if nodes.last().0 == id {
        Some(nodes.last())
    } else {
        last_with_id(nodes.drop_last(), id)
    }
}

/// The last node of `nodes` with the code `code`.
pub open spec fn last_with_code(nodes: Seq<(i32, Seq<char>, Seq<char>)>, code: Seq<char>) -> Option<
    (i32, Seq<char>, Seq<char>),
>
    decreases nodes.len(),
{
    if nodes.len() == 0 {
        None
    } else if nodes.last().1 == code {
        Some(nodes.last())
    } else {
        last_with_code(nodes.drop_last(), code)
    }
}

/// No two nodes share an id, and no two share a code.
pub open spec fn nodes_distinct(nodes: Seq<(i32, Seq<char>, Seq<char>)>) -> bool {
    forall|i: int, j: int|
        0 <= i < nodes.len() && 0 <= j < nodes.len() && i != j ==> nodes[i].0 != nodes[j].0 && nodes[i].1
            != nodes[j].1
}

/// In a table without repeated ids or codes, each node is found both by its
/// id and by its code: `code_to_id` and `id_to_code` undo each other on it.
pub proof fn lemma_code_id_round_trip(nodes: Seq<(i32, Seq<char>, Seq<char>)>, i: int)
    requires
        0 <= i < nodes.len(),
        nodes_distinct(nodes),
    ensures
        last_with_id(nodes, nodes[i].0) == Some(nodes[i]),
        last_with_code(nodes, nodes[i].1) == Some(nodes[i]),
    decreases nodes.len(),
{
    if i < nodes.len() - 1 {
        let d = nodes.drop_last();
        assert(nodes_distinct(d)) by {
            assert forall|a: int, b: int| 0 <= a < d.len() && 0 <= b < d.len() && a != b implies d[a].0 != d[b].0
                && d[a].1 != d[b].1 by {
                assert(d[a] == nodes[a] && d[b] == nodes[b]);
            }
        }
        assert(nodes.last() == nodes[nodes.len() - 1]);
        lemma_code_id_round_trip(d, i);
        assert(d[i] == nodes[i]);
    }
}

/// Calls `<Arc<ConsNode> as Clone>::clone`, which gives another pointer to the
/// same node.
#[verifier::external_body]
fn share_node(node: &Arc<ConsNode>) -> (res: Arc<ConsNode>)
    ensures
        res == *node,
{
    node.clone()
}

/// A constant table: its nodes in order, found by code or by id; where two
/// nodes share a code or an id, the later one is found.
pub struct Cons {
    code_data: Vec<Arc<ConsNode>>,
    id_data: BTreeMap<i32, Arc<ConsNode>>,
}

impl View for Cons {
    type V = Seq<(i32, Seq<char>, Seq<char>)>;

    closed spec fn view(&self) -> Seq<(i32, Seq<char>, Seq<char>)> {
        node_views(self.code_data@)
    }
}

impl Cons {
    /// The id index agrees with the node list.
    pub closed spec fn wf(&self) -> bool {
        forall|id: i32|
            #![trigger self.id_data@.contains_key(id)]
            (self.id_data@.contains_key(id) <==> last_with_id(self@, id) is Some) && (
            self.id_data@.contains_key(id) ==> Some((*self.id_data@[id])@) == last_with_id(self@, id))
    }

    /// The table of the given nodes, in their order.
    pub fn from_vec(vec: Vec<Arc<ConsNode>>) -> (c: Cons)
        ensures
            c.wf(),
            c@ == node_views(vec@),
    {
        let mut code_data: Vec<Arc<ConsNode>> = Vec::new();
        let mut id_data: BTreeMap<i32, Arc<ConsNode>> = BTreeMap::new();
        let mut i: usize = 0;
        while i < vec.len()
            invariant
                i <= vec@.len(),
                node_views(code_data@) == node_views(vec@).take(i as int),
                forall|id: i32|
                    #![trigger id_data@.contains_key(id)]
                    (id_data@.contains_key(id) <==> last_with_id(node_views(code_data@), id) is Some) && (
                    id_data@.contains_key(id) ==> Some((*id_data@[id])@) == last_with_id(
                        node_views(code_data@),
                        id,
                    )),
            decreases vec@.len() - i,
        {
            let node = share_node(&vec[i]);
            let ghost before = node_views(code_data@);
            let id = node.id;
            id_data.insert(id, share_node(&node));
            code_data.push(node);
            proof {
                let after = node_views(code_data@);
                assert(after =~= before.push((*vec@[i as int])@));
                assert(after.drop_last() =~= before);
                assert(node_views(vec@).take(i + 1) =~= node_views(vec@).take(i as int).push((*vec@[i as int])@));
            }
            i = i + 1;
        }
        assert(node_views(vec@).take(vec@.len() as int) =~= node_views(vec@));
        Cons { code_data: code_data, id_data: id_data }
    }

    /// The last node with the id `id`.
    pub fn by_id(&self, id: i32) -> (r: Option<&Arc<ConsNode>>)
        requires
            self.wf(),
        ensures
            r is None <==> last_with_id(self@, id) is None,
            r matches Some(n) ==> Some((**n)@) == last_with_id(self@, id),
    {
        let r = self.id_data.get(&id);
        assert(self.id_data@.contains_key(id) ==> true);
        r
    }

    /// The last node with the code `code`.
    pub fn by_code(&self, code: &str) -> (r: Option<&Arc<ConsNode>>)
        ensures
            r is None <==> last_with_code(self@, code@) is None,
            r matches Some(n) ==> Some((**n)@) == last_with_code(self@, code@),
    {
        let mut i = self.code_data.len();
        assert(self@.take(i as int) =~= self@);
        while i > 0
            invariant
                i <= self.code_data@.len(),
                last_with_code(self@, code@) == last_with_code(self@.take(i as int), code@),
            decreases i,
        {
            let n = &self.code_data[i - 1];
            let ghost t = self@.take(i as int);
            assert(t.last() == (**n)@);
            assert(t.drop_last() =~= self@.take(i - 1));
            if str_eq(n.code.as_str(), code) {
                return Some(n);
            }
            i = i - 1;
        }
        assert(self@.take(0) =~= Seq::<(i32, Seq<char>, Seq<char>)>::empty());
        None
    }
}

/// The `user_type` table.
pub open spec fn user_type_table() -> Seq<(i32, Seq<char>, Seq<char>)> {
    seq![
        (100i32, "guest"@, "游客"@),
        (200i32, "normal"@, "普通用户"@),
        (300i32, "company"@, "公司"@),
        (400i32, "center"@, "出票中心"@),
        (500i32, "terminal"@, "终端机"@),
        (900i32, "admin"@, "管理员"@),
    ]
}

/// The `file_type` table.
pub open spec fn file_type_table() -> Seq<(i32, Seq<char>, Seq<char>)> {
    seq![
        (-1i32, "unknown"@, "未知"@),
        (100i32, "text/xml"@, "xml"@),
        (200i32, "text/plain"@, "txt"@),
        (300i32, "image/png"@, "png"@),
    ]
}

/// The `desk_status` table.
pub open spec fn desk_status_table() -> Seq<(i32, Seq<char>, Seq<char>)> {
    seq![
        (0i32, "idle"@, "空闲"@),
        (100i32, "eat"@, "就餐中"@),
    ]
}

/// The `moneylog_type` table.
pub open spec fn moneylog_type_table() -> Seq<(i32, Seq<char>, Seq<char>)> {
    seq![
        (1000i32, "charge"@, "充值"@),
        (1100i32, "bet"@, "投注"@),
        (1200i32, "print"@, "出票"@),
        (1300i32, "refund"@, "退款"@),
        (1400i32, "fund"@, "返奖"@),
        (1500i32, "cash"@, "兑奖"@),
        (1600i32, "reset"@, "矫正"@),
        (1700i32, "repay"@, "返佣"@),
    ]
}

/// The `term_status` table.
pub open spec fn term_status_table() -> Seq<(i32, Seq<char>, Seq<char>)> {
    seq![
        (10i32, "init"@, "初始状态"@),
        (20i32, "ready_to_sale"@, "销售准备中"@),
        (30i32, "sale"@, "销售中"@),
        (35i32, "pause"@, "暂停销售"@),
        (40i32, "ready_to_end"@, "准备停售中"@),
        (50i32, "end"@, "已停售"@),
        (55i32, "delayed"@, "延迟"@),
        (60i32, "open"@, "已开奖"@),
        (70i32, "drawing"@, "算奖中"@),
        (80i32, "drawed"@, "已算奖"@),
        (90i32, "funding"@, "返奖中"@),
        (100i32, "funded"@, "已返奖"@),
    ]
}

/// The `ticket_status` table.
pub open spec fn ticket_status_table() -> Seq<(i32, Seq<char>, Seq<char>)> {
    seq![
        (10i32, "printing"@, "出票中"@),
        (15i32, "print_err"@, "出票异常"@),
        (20i32, "print_success"@, "出票成功"@),
        (30i32, "hit"@, "中奖"@),
        (40i32, "not_hit"@, "未中奖"@),
        (50i32, "refund"@, "已退款"@),
        (52i32, "bonus_super"@, "超级大奖"@),
        (55i32, "bonus_big"@, "中大奖"@),
        (58i32, "bonus_big_cashed"@, "大奖已兑"@),
        (60i32, "funded"@, "已返奖"@),
        (65i32, "bonus_err"@, "兑奖异常"@),
        (70i32, "cashed"@, "已兑奖"@),
    ]
}

/// The `sys_mode` table.
pub open spec fn sys_mode_table() -> Seq<(i32, Seq<char>, Seq<char>)> {
    seq![
        (0i32, "print"@, "出票"@),
        (1i32, "bonus"@, "兑奖"@),
    ]
}

/// The `terminal_status` table.
pub open spec fn terminal_status_table() -> Seq<(i32, Seq<char>, Seq<char>)> {
    seq![
        (0i32, "offline"@, "离线"@),
        (1i32, "online"@, "在线"@),
    ]
}

/// The `terminal_type` table.
pub open spec fn terminal_type_table() -> Seq<(i32, Seq<char>, Seq<char>)> {
    seq![
        (0i32, "normal"@, "普通机"@),
        (1i32, "manager"@, "管理机"@),
    ]
}

/// The `terminal_hard_type` table.
pub open spec fn terminal_hard_type_table() -> Seq<(i32, Seq<char>, Seq<char>)> {
    seq![
        (1i32, "C8"@, "英特达"@),
    ]
}

/// The `province_type` table.
pub open spec fn province_type_table() -> Seq<(i32, Seq<char>, Seq<char>)> {
    seq![
        (-1i32, "unset"@, "未设置"@),
        (1i32, "hb"@, "湖北"@),
        (2i32, "he"@, "河北"@),
        (3i32, "sx"@, "陕西"@),
        (4i32, "ah"@, "安徽"@),
        (5i32, "hn"@, "湖南"@),
    ]
}

/// The `terminal_soft_type` table.
pub open spec fn terminal_soft_type_table() -> Seq<(i32, Seq<char>, Seq<char>)> {
    seq![
        (1i32, "TC001"@, "35-36"@),
    ]
}

/// The `terminal_mode` table.
pub open spec fn terminal_mode_table() -> Seq<(i32, Seq<char>, Seq<char>)> {
    seq![
        (100i32, "normal"@, "普通"@),
        (200i32, "print"@, "只出票"@),
        (300i32, "bonus"@, "只兑奖"@),
        (900i32, "disabled"@, "停用"@),
    ]
}

/// The `charge_report_status` table.
pub open spec fn charge_report_status_table() -> Seq<(i32, Seq<char>, Seq<char>)> {
    seq![
        (10i32, "unhandle"@, "未处理"@),
        (20i32, "handled"@, "已处理"@),
    ]
}

/// The constant tables, by name, in the order the factory builds them.
pub open spec fn standard_tables() -> Seq<(Seq<char>, Seq<(i32, Seq<char>, Seq<char>)>)> {
    seq![
        ("user_type"@, user_type_table()),
        ("file_type"@, file_type_table()),
        ("desk_status"@, desk_status_table()),
        ("moneylog_type"@, moneylog_type_table()),
        ("term_status"@, term_status_table()),
        ("ticket_status"@, ticket_status_table()),
        ("sys_mode"@, sys_mode_table()),
        ("terminal_status"@, terminal_status_table()),
        ("terminal_type"@, terminal_type_table()),
        ("terminal_hard_type"@, terminal_hard_type_table()),
        ("province_type"@, province_type_table()),
        ("terminal_soft_type"@, terminal_soft_type_table()),
        ("terminal_mode"@, terminal_mode_table()),
        ("charge_report_status"@, charge_report_status_table()),
    ]
}

fn user_type_cons() -> (c: Cons)
    ensures
        c.wf(),
        c@ == user_type_table(),
{
    let v = vec![
            Arc::new(ConsNode::new(100, "guest", "游客")),
            Arc::new(ConsNode::new(200, "normal", "普通用户")),
            Arc::new(ConsNode::new(300, "company", "公司")),
            Arc::new(ConsNode::new(400, "center", "出票中心")),
            Arc::new(ConsNode::new(500, "terminal", "终端机")),
            Arc::new(ConsNode::new(900, "admin", "管理员")),
        ];
    let c = Cons::from_vec(v);
    assert(c@ =~= user_type_table());
    c
}

fn file_type_cons() -> (c: Cons)
    ensures
        c.wf(),
        c@ == file_type_table(),
{
    let v = vec![
            Arc::new(ConsNode::new(-1, "unknown", "未知")),
            Arc::new(ConsNode::new(100, "text/xml", "xml")),
            Arc::new(ConsNode::new(200, "text/plain", "txt")),
            Arc::new(ConsNode::new(300, "image/png", "png")),
        ];
    let c = Cons::from_vec(v);
    assert(c@ =~= file_type_table());
    c
}

fn desk_status_cons() -> (c: Cons)
    ensures
        c.wf(),
        c@ == desk_status_table(),
{
    let v = vec![
            Arc::new(ConsNode::new(0, "idle", "空闲")),
            Arc::new(ConsNode::new(100, "eat", "就餐中")),
        ];
    let c = Cons::from_vec(v);
    assert(c@ =~= desk_status_table());
    c
}

fn moneylog_type_cons() -> (c: Cons)
    ensures
        c.wf(),
        c@ == moneylog_type_table(),
{
    let v = vec![
            Arc::new(ConsNode::new(1000, "charge", "充值")),
            Arc::new(ConsNode::new(1100, "bet", "投注")),
            Arc::new(ConsNode::new(1200, "print", "出票")),
            Arc::new(ConsNode::new(1300, "refund", "退款")),
            Arc::new(ConsNode::new(1400, "fund", "返奖")),
            Arc::new(ConsNode::new(1500, "cash", "兑奖")),
            Arc::new(ConsNode::new(1600, "reset", "矫正")),
            Arc::new(ConsNode::new(1700, "repay", "返佣")),
        ];
    let c = Cons::from_vec(v);
    assert(c@ =~= moneylog_type_table());
    c
}

fn term_status_cons() -> (c: Cons)
    ensures
        c.wf(),
        c@ == term_status_table(),
{
    let v = vec![
            Arc::new(ConsNode::new(10, "init", "初始状态")),
            Arc::new(ConsNode::new(20, "ready_to_sale", "销售准备中")),
            Arc::new(ConsNode::new(30, "sale", "销售中")),
            Arc::new(ConsNode::new(35, "pause", "暂停销售")),
            Arc::new(ConsNode::new(40, "ready_to_end", "准备停售中")),
            Arc::new(ConsNode::new(50, "end", "已停售")),
            Arc::new(ConsNode::new(55, "delayed", "延迟")),
            Arc::new(ConsNode::new(60, "open", "已开奖")),
            Arc::new(ConsNode::new(70, "drawing", "算奖中")),
            Arc::new(ConsNode::new(80, "drawed", "已算奖")),
            Arc::new(ConsNode::new(90, "funding", "返奖中")),
            Arc::new(ConsNode::new(100, "funded", "已返奖")),
        ];
    let c = Cons::from_vec(v);
    assert(c@ =~= term_status_table());
    c
}

fn ticket_status_cons() -> (c: Cons)
    ensures
        c.wf(),
        c@ == ticket_status_table(),
{
    let v = vec![
            Arc::new(ConsNode::new(10, "printing", "出票中")),
            Arc::new(ConsNode::new(15, "print_err", "出票异常")),
            Arc::new(ConsNode::new(20, "print_success", "出票成功")),
            Arc::new(ConsNode::new(30, "hit", "中奖")),
            Arc::new(ConsNode::new(40, "not_hit", "未中奖")),
            Arc::new(ConsNode::new(50, "refund", "已退款")),
            Arc::new(ConsNode::new(52, "bonus_super", "超级大奖")),
            Arc::new(ConsNode::new(55, "bonus_big", "中大奖")),
            Arc::new(ConsNode::new(58, "bonus_big_cashed", "大奖已兑")),
            Arc::new(ConsNode::new(60, "funded", "已返奖")),
            Arc::new(ConsNode::new(65, "bonus_err", "兑奖异常")),
            Arc::new(ConsNode::new(70, "cashed", "已兑奖")),
        ];
    let c = Cons::from_vec(v);
    assert(c@ =~= ticket_status_table());
    c
}

fn sys_mode_cons() -> (c: Cons)
    ensures
        c.wf(),
        c@ == sys_mode_table(),
{
    let v = vec![
            Arc::new(ConsNode::new(0, "print", "出票")),
            Arc::new(ConsNode::new(1, "bonus", "兑奖")),
        ];
    let c = Cons::from_vec(v);
    assert(c@ =~= sys_mode_table());
    c
}

fn terminal_status_cons() -> (c: Cons)
    ensures
        c.wf(),
        c@ == terminal_status_table(),
{
    let v = vec![
            Arc::new(ConsNode::new(0, "offline", "离线")),
            Arc::new(ConsNode::new(1, "online", "在线")),
        ];
    let c = Cons::from_vec(v);
    assert(c@ =~= terminal_status_table());
    c
}

fn terminal_type_cons() -> (c: Cons)
    ensures
        c.wf(),
        c@ == terminal_type_table(),
{
    let v = vec![
            Arc::new(ConsNode::new(0, "normal", "普通机")),
            Arc::new(ConsNode::new(1, "manager", "管理机")),
        ];
    let c = Cons::from_vec(v);
    assert(c@ =~= terminal_type_table());
    c
}

fn terminal_hard_type_cons() -> (c: Cons)
    ensures
        c.wf(),
        c@ == terminal_hard_type_table(),
{
    let v = vec![
            Arc::new(ConsNode::new(1, "C8", "英特达")),
        ];
    let c = Cons::from_vec(v);
    assert(c@ =~= terminal_hard_type_table());
    c
}

fn province_type_cons() -> (c: Cons)
    ensures
        c.wf(),
        c@ == province_type_table(),
{
    let v = vec![
            Arc::new(ConsNode::new(-1, "unset", "未设置")),
            Arc::new(ConsNode::new(1, "hb", "湖北")),
            Arc::new(ConsNode::new(2, "he", "河北")),
            Arc::new(ConsNode::new(3, "sx", "陕西")),
            Arc::new(ConsNode::new(4, "ah", "安徽")),
            Arc::new(ConsNode::new(5, "hn", "湖南")),
        ];
    let c = Cons::from_vec(v);
    assert(c@ =~= province_type_table());
    c
}

fn terminal_soft_type_cons() -> (c: Cons)
    ensures
        c.wf(),
        c@ == terminal_soft_type_table(),
{
    let v = vec![
            Arc::new(ConsNode::new(1, "TC001", "35-36")),
        ];
    let c = Cons::from_vec(v);
    assert(c@ =~= terminal_soft_type_table());
    c
}

fn terminal_mode_cons() -> (c: Cons)
    ensures
        c.wf(),
        c@ == terminal_mode_table(),
{
    let v = vec![
            Arc::new(ConsNode::new(100, "normal", "普通")),
            Arc::new(ConsNode::new(200, "print", "只出票")),
            Arc::new(ConsNode::new(300, "bonus", "只兑奖")),
            Arc::new(ConsNode::new(900, "disabled", "停用")),
        ];
    let c = Cons::from_vec(v);
    assert(c@ =~= terminal_mode_table());
    c
}

fn charge_report_status_cons() -> (c: Cons)
    ensures
        c.wf(),
        c@ == charge_report_status_table(),
{
    let v = vec![
            Arc::new(ConsNode::new(10, "unhandle", "未处理")),
            Arc::new(ConsNode::new(20, "handled", "已处理")),
        ];
    let c = Cons::from_vec(v);
    assert(c@ =~= charge_report_status_table());
    c
}

/// The nodes of the last table named `name`.
pub open spec fn table_nodes(tables: Seq<(Seq<char>, Seq<(i32, Seq<char>, Seq<char>)>)>, name: Seq<char>) -> Option<
    Seq<(i32, Seq<char>, Seq<char>)>,
>
    decreases tables.len(),
{
    if tables.len() == 0 {
        None
    } else if tables.last().0 == name {
        Some(tables.last().1)
    } else {
        table_nodes(tables.drop_last(), name)
    }
}

proof fn lemma_user_type_distinct()
    ensures
        nodes_distinct(user_type_table()),
{
    reveal_strlit("guest");
    reveal_strlit("normal");
    reveal_strlit("company");
    reveal_strlit("center");
    reveal_strlit("terminal");
    reveal_strlit("admin");
    let t = user_type_table();
    assert("guest"@.len() != "normal"@.len());
    assert("guest"@.len() != "company"@.len());
    assert("guest"@.len() != "center"@.len());
    assert("guest"@.len() != "terminal"@.len());
    assert("guest"@[0] != "admin"@[0]);
    assert("normal"@.len() != "company"@.len());
    assert("normal"@[0] != "center"@[0]);
    assert("normal"@.len() != "terminal"@.len());
    assert("normal"@.len() != "admin"@.len());
    assert("company"@.len() != "center"@.len());
    assert("company"@.len() != "terminal"@.len());
    assert("company"@.len() != "admin"@.len());
    assert("center"@.len() != "terminal"@.len());
    assert("center"@.len() != "admin"@.len());
    assert("terminal"@.len() != "admin"@.len());
    assert forall|i: int, j: int| 0 <= i < t.len() && 0 <= j < t.len() && i != j implies t[i].0 != t[j].0 && t[i].1
        != t[j].1 by {
        assert(i == 0 || i == 1 || i == 2 || i == 3 || i == 4 || i == 5);
        assert(j == 0 || j == 1 || j == 2 || j == 3 || j == 4 || j == 5);
    }
}

proof fn lemma_file_type_distinct()
    ensures
        nodes_distinct(file_type_table()),
{
    reveal_strlit("unknown");
    reveal_strlit("text/xml");
    reveal_strlit("text/plain");
    reveal_strlit("image/png");
    let t = file_type_table();
    assert("unknown"@.len() != "text/xml"@.len());
    assert("unknown"@.len() != "text/plain"@.len());
    assert("unknown"@.len() != "image/png"@.len());
    assert("text/xml"@.len() != "text/plain"@.len());
    assert("text/xml"@.len() != "image/png"@.len());
    assert("text/plain"@.len() != "image/png"@.len());
    assert forall|i: int, j: int| 0 <= i < t.len() && 0 <= j < t.len() && i != j implies t[i].0 != t[j].0 && t[i].1
        != t[j].1 by {
        assert(i == 0 || i == 1 || i == 2 || i == 3);
        assert(j == 0 || j == 1 || j == 2 || j == 3);
    }
}

proof fn lemma_desk_status_distinct()
    ensures
        nodes_distinct(desk_status_table()),
{
    reveal_strlit("idle");
    reveal_strlit("eat");
    let t = desk_status_table();
    assert("idle"@.len() != "eat"@.len());
    assert forall|i: int, j: int| 0 <= i < t.len() && 0 <= j < t.len() && i != j implies t[i].0 != t[j].0 && t[i].1
        != t[j].1 by {
        assert(i == 0 || i == 1);
        assert(j == 0 || j == 1);
    }
}

proof fn lemma_moneylog_type_distinct()
    ensures
        nodes_distinct(moneylog_type_table()),
{
    reveal_strlit("charge");
    reveal_strlit("bet");
    reveal_strlit("print");
    reveal_strlit("refund");
    reveal_strlit("fund");
    reveal_strlit("cash");
    reveal_strlit("reset");
    reveal_strlit("repay");
    let t = moneylog_type_table();
    assert("charge"@.len() != "bet"@.len());
    assert("charge"@.len() != "print"@.len());
    assert("charge"@[0] != "refund"@[0]);
    assert("charge"@.len() != "fund"@.len());
    assert("charge"@.len() != "cash"@.len());
    assert("charge"@.len() != "reset"@.len());
    assert("charge"@.len() != "repay"@.len());
    assert("bet"@.len() != "print"@.len());
    assert("bet"@.len() != "refund"@.len());
    assert("bet"@.len() != "fund"@.len());
    assert("bet"@.len() != "cash"@.len());
    assert("bet"@.len() != "reset"@.len());
    assert("bet"@.len() != "repay"@.len());
    assert("print"@.len() != "refund"@.len());
    assert("print"@.len() != "fund"@.len());
    assert("print"@.len() != "cash"@.len());
    assert("print"@[0] != "reset"@[0]);
    assert("print"@[0] != "repay"@[0]);
    assert("refund"@.len() != "fund"@.len());
    assert("refund"@.len() != "cash"@.len());
    assert("refund"@.len() != "reset"@.len());
    assert("refund"@.len() != "repay"@.len());
    assert("fund"@[0] != "cash"@[0]);
    assert("fund"@.len() != "reset"@.len());
    assert("fund"@.len() != "repay"@.len());
    assert("cash"@.len() != "reset"@.len());
    assert("cash"@.len() != "repay"@.len());
    assert("reset"@[2] != "repay"@[2]);
    assert forall|i: int, j: int| 0 <= i < t.len() && 0 <= j < t.len() && i != j implies t[i].0 != t[j].0 && t[i].1
        != t[j].1 by {
        assert(i == 0 || i == 1 || i == 2 || i == 3 || i == 4 || i == 5 || i == 6 || i == 7);
        assert(j == 0 || j == 1 || j == 2 || j == 3 || j == 4 || j == 5 || j == 6 || j == 7);
    }
}

proof fn lemma_term_status_distinct()
    ensures
        nodes_distinct(term_status_table()),
{
    reveal_strlit("init");
    reveal_strlit("ready_to_sale");
    reveal_strlit("sale");
    reveal_strlit("pause");
    reveal_strlit("ready_to_end");
    reveal_strlit("end");
    reveal_strlit("delayed");
    reveal_strlit("open");
    reveal_strlit("drawing");
    reveal_strlit("drawed");
    reveal_strlit("funding");
    reveal_strlit("funded");
    let t = term_status_table();
    assert("init"@.len() != "ready_to_sale"@.len());
    assert("init"@[0] != "sale"@[0]);
    assert("init"@.len() != "pause"@.len());
    assert("init"@.len() != "ready_to_end"@.len());
    assert("init"@.len() != "end"@.len());
    assert("init"@.len() != "delayed"@.len());
    assert("init"@[0] != "open"@[0]);
    assert("init"@.len() != "drawing"@.len());
    assert("init"@.len() != "drawed"@.len());
    assert("init"@.len() != "funding"@.len());
    assert("init"@.len() != "funded"@.len());
    assert("ready_to_sale"@.len() != "sale"@.len());
    assert("ready_to_sale"@.len() != "pause"@.len());
    assert("ready_to_sale"@.len() != "ready_to_end"@.len());
    assert("ready_to_sale"@.len() != "end"@.len());
    assert("ready_to_sale"@.len() != "delayed"@.len());
    assert("ready_to_sale"@.len() != "open"@.len());
    assert("ready_to_sale"@.len() != "drawing"@.len());
    assert("ready_to_sale"@.len() != "drawed"@.len());
    assert("ready_to_sale"@.len() != "funding"@.len());
    assert("ready_to_sale"@.len() != "funded"@.len());
    assert("sale"@.len() != "pause"@.len());
    assert("sale"@.len() != "ready_to_end"@.len());
    assert("sale"@.len() != "end"@.len());
    assert("sale"@.len() != "delayed"@.len());
    assert("sale"@[0] != "open"@[0]);
    assert("sale"@.len() != "drawing"@.len());
    assert("sale"@.len() != "drawed"@.len());
    assert("sale"@.len() != "funding"@.len());
    assert("sale"@.len() != "funded"@.len());
    assert("pause"@.len() != "ready_to_end"@.len());
    assert("pause"@.len() != "end"@.len());
    assert("pause"@.len() != "delayed"@.len());
    assert("pause"@.len() != "open"@.len());
    assert("pause"@.len() != "drawing"@.len());
    assert("pause"@.len() != "drawed"@.len());
    assert("pause"@.len() != "funding"@.len());
    assert("pause"@.len() != "funded"@.len());
    assert("ready_to_end"@.len() != "end"@.len());
    assert("ready_to_end"@.len() != "delayed"@.len());
    assert("ready_to_end"@.len() != "open"@.len());
    assert("ready_to_end"@.len() != "drawing"@.len());
    assert("ready_to_end"@.len() != "drawed"@.len());
    assert("ready_to_end"@.len() != "funding"@.len());
    assert("ready_to_end"@.len() != "funded"@.len());
    assert("end"@.len() != "delayed"@.len());
    assert("end"@.len() != "open"@.len());
    assert("end"@.len() != "drawing"@.len());
    assert("end"@.len() != "drawed"@.len());
    assert("end"@.len() != "funding"@.len());
    assert("end"@.len() != "funded"@.len());
    assert("delayed"@.len() != "open"@.len());
    assert("delayed"@[1] != "drawing"@[1]);
    assert("delayed"@.len() != "drawed"@.len());
    assert("delayed"@[0] != "funding"@[0]);
    assert("delayed"@.len() != "funded"@.len());
    assert("open"@.len() != "drawing"@.len());
    assert("open"@.len() != "drawed"@.len());
    assert("open"@.len() != "funding"@.len());
    assert("open"@.len() != "funded"@.len());
    assert("drawing"@.len() != "drawed"@.len());
    assert("drawing"@[0] != "funding"@[0]);
    assert("drawing"@.len() != "funded"@.len());
    assert("drawed"@.len() != "funding"@.len());
    assert("drawed"@[0] != "funded"@[0]);
    assert("funding"@.len() != "funded"@.len());
    assert forall|i: int, j: int| 0 <= i < t.len() && 0 <= j < t.len() && i != j implies t[i].0 != t[j].0 && t[i].1
        != t[j].1 by {
        assert(i == 0 || i == 1 || i == 2 || i == 3 || i == 4 || i == 5 || i == 6 || i == 7 || i == 8 || i == 9 || i == 10 || i == 11);
        assert(j == 0 || j == 1 || j == 2 || j == 3 || j == 4 || j == 5 || j == 6 || j == 7 || j == 8 || j == 9 || j == 10 || j == 11);
    }
}

proof fn lemma_ticket_status_distinct()
    ensures
        nodes_distinct(ticket_status_table()),
{
    reveal_strlit("printing");
    reveal_strlit("print_err");
    reveal_strlit("print_success");
    reveal_strlit("hit");
    reveal_strlit("not_hit");
    reveal_strlit("refund");
    reveal_strlit("bonus_super");
    reveal_strlit("bonus_big");
    reveal_strlit("bonus_big_cashed");
    reveal_strlit("funded");
    reveal_strlit("bonus_err");
    reveal_strlit("cashed");
    let t = ticket_status_table();
    assert("printing"@.len() != "print_err"@.len());
    assert("printing"@.len() != "print_success"@.len());
    assert("printing"@.len() != "hit"@.len());
    assert("printing"@.len() != "not_hit"@.len());
    assert("printing"@.len() != "refund"@.len());
    assert("printing"@.len() != "bonus_super"@.len());
    assert("printing"@.len() != "bonus_big"@.len());
    assert("printing"@.len() != "bonus_big_cashed"@.len());
    assert("printing"@.len() != "funded"@.len());
    assert("printing"@.len() != "bonus_err"@.len());
    assert("printing"@.len() != "cashed"@.len());
    assert("print_err"@.len() != "print_success"@.len());
    assert("print_err"@.len() != "hit"@.len());
    assert("print_err"@.len() != "not_hit"@.len());
    assert("print_err"@.len() != "refund"@.len());
    assert("print_err"@.len() != "bonus_super"@.len());
    assert("print_err"@[0] != "bonus_big"@[0]);
    assert("print_err"@.len() != "bonus_big_cashed"@.len());
    assert("print_err"@.len() != "funded"@.len());
    assert("print_err"@[0] != "bonus_err"@[0]);
    assert("print_err"@.len() != "cashed"@.len());
    assert("print_success"@.len() != "hit"@.len());
    assert("print_success"@.len() != "not_hit"@.len());
    assert("print_success"@.len() != "refund"@.len());
    assert("print_success"@.len() != "bonus_super"@.len());
    assert("print_success"@.len() != "bonus_big"@.len());
    assert("print_success"@.len() != "bonus_big_cashed"@.len());
    assert("print_success"@.len() != "funded"@.len());
    assert("print_success"@.len() != "bonus_err"@.len());
    assert("print_success"@.len() != "cashed"@.len());
    assert("hit"@.len() != "not_hit"@.len());
    assert("hit"@.len() != "refund"@.len());
    assert("hit"@.len() != "bonus_super"@.len());
    assert("hit"@.len() != "bonus_big"@.len());
    assert("hit"@.len() != "bonus_big_cashed"@.len());
    assert("hit"@.len() != "funded"@.len());
    assert("hit"@.len() != "bonus_err"@.len());
    assert("hit"@.len() != "cashed"@.len());
    assert("not_hit"@.len() != "refund"@.len());
    assert("not_hit"@.len() != "bonus_super"@.len());
    assert("not_hit"@.len() != "bonus_big"@.len());
    assert("not_hit"@.len() != "bonus_big_cashed"@.len());
    assert("not_hit"@.len() != "funded"@.len());
    assert("not_hit"@.len() != "bonus_err"@.len());
    assert("not_hit"@.len() != "cashed"@.len());
    assert("refund"@.len() != "bonus_super"@.len());
    assert("refund"@.len() != "bonus_big"@.len());
    assert("refund"@.len() != "bonus_big_cashed"@.len());
    assert("refund"@[0] != "funded"@[0]);
    assert("refund"@.len() != "bonus_err"@.len());
    assert("refund"@[0] != "cashed"@[0]);
    assert("bonus_super"@.len() != "bonus_big"@.len());
    assert("bonus_super"@.len() != "bonus_big_cashed"@.len());
    assert("bonus_super"@.len() != "funded"@.len());
    assert("bonus_super"@.len() != "bonus_err"@.len());
    assert("bonus_super"@.len() != "cashed"@.len());
    assert("bonus_big"@.len() != "bonus_big_cashed"@.len());
    assert("bonus_big"@.len() != "funded"@.len());
    assert("bonus_big"@[6] != "bonus_err"@[6]);
    assert("bonus_big"@.len() != "cashed"@.len());
    assert("bonus_big_cashed"@.len() != "funded"@.len());
    assert("bonus_big_cashed"@.len() != "bonus_err"@.len());
    assert("bonus_big_cashed"@.len() != "cashed"@.len());
    assert("funded"@.len() != "bonus_err"@.len());
    assert("funded"@[0] != "cashed"@[0]);
    assert("bonus_err"@.len() != "cashed"@.len());
    assert forall|i: int, j: int| 0 <= i < t.len() && 0 <= j < t.len() && i != j implies t[i].0 != t[j].0 && t[i].1
        != t[j].1 by {
        assert(i == 0 || i == 1 || i == 2 || i == 3 || i == 4 || i == 5 || i == 6 || i == 7 || i == 8 || i == 9 || i == 10 || i == 11);
        assert(j == 0 || j == 1 || j == 2 || j == 3 || j == 4 || j == 5 || j == 6 || j == 7 || j == 8 || j == 9 || j == 10 || j == 11);
    }
}

proof fn lemma_sys_mode_distinct()
    ensures
        nodes_distinct(sys_mode_table()),
{
    reveal_strlit("print");
    reveal_strlit("bonus");
    let t = sys_mode_table();
    assert("print"@[0] != "bonus"@[0]);
    assert forall|i: int, j: int| 0 <= i < t.len() && 0 <= j < t.len() && i != j implies t[i].0 != t[j].0 && t[i].1
        != t[j].1 by {
        assert(i == 0 || i == 1);
        assert(j == 0 || j == 1);
    }
}

proof fn lemma_terminal_status_distinct()
    ensures
        nodes_distinct(terminal_status_table()),
{
    reveal_strlit("offline");
    reveal_strlit("online");
    let t = terminal_status_table();
    assert("offline"@.len() != "online"@.len());
    assert forall|i: int, j: int| 0 <= i < t.len() && 0 <= j < t.len() && i != j implies t[i].0 != t[j].0 && t[i].1
        != t[j].1 by {
        assert(i == 0 || i == 1);
        assert(j == 0 || j == 1);
    }
}

proof fn lemma_terminal_type_distinct()
    ensures
        nodes_distinct(terminal_type_table()),
{
    reveal_strlit("normal");
    reveal_strlit("manager");
    let t = terminal_type_table();
    assert("normal"@.len() != "manager"@.len());
    assert forall|i: int, j: int| 0 <= i < t.len() && 0 <= j < t.len() && i != j implies t[i].0 != t[j].0 && t[i].1
        != t[j].1 by {
        assert(i == 0 || i == 1);
        assert(j == 0 || j == 1);
    }
}

proof fn lemma_terminal_hard_type_distinct()
    ensures
        nodes_distinct(terminal_hard_type_table()),
{
    reveal_strlit("C8");
    let t = terminal_hard_type_table();
    assert forall|i: int, j: int| 0 <= i < t.len() && 0 <= j < t.len() && i != j implies t[i].0 != t[j].0 && t[i].1
        != t[j].1 by {
        assert(i == 0);
        assert(j == 0);
    }
}

proof fn lemma_province_type_distinct()
    ensures
        nodes_distinct(province_type_table()),
{
    reveal_strlit("unset");
    reveal_strlit("hb");
    reveal_strlit("he");
    reveal_strlit("sx");
    reveal_strlit("ah");
    reveal_strlit("hn");
    let t = province_type_table();
    assert("unset"@.len() != "hb"@.len());
    assert("unset"@.len() != "he"@.len());
    assert("unset"@.len() != "sx"@.len());
    assert("unset"@.len() != "ah"@.len());
    assert("unset"@.len() != "hn"@.len());
    assert("hb"@[1] != "he"@[1]);
    assert("hb"@[0] != "sx"@[0]);
    assert("hb"@[0] != "ah"@[0]);
    assert("hb"@[1] != "hn"@[1]);
    assert("he"@[0] != "sx"@[0]);
    assert("he"@[0] != "ah"@[0]);
    assert("he"@[1] != "hn"@[1]);
    assert("sx"@[0] != "ah"@[0]);
    assert("sx"@[0] != "hn"@[0]);
    assert("ah"@[0] != "hn"@[0]);
    assert forall|i: int, j: int| 0 <= i < t.len() && 0 <= j < t.len() && i != j implies t[i].0 != t[j].0 && t[i].1
        != t[j].1 by {
        assert(i == 0 || i == 1 || i == 2 || i == 3 || i == 4 || i == 5);
        assert(j == 0 || j == 1 || j == 2 || j == 3 || j == 4 || j == 5);
    }
}

proof fn lemma_terminal_soft_type_distinct()
    ensures
        nodes_distinct(terminal_soft_type_table()),
{
    reveal_strlit("TC001");
    let t = terminal_soft_type_table();
    assert forall|i: int, j: int| 0 <= i < t.len() && 0 <= j < t.len() && i != j implies t[i].0 != t[j].0 && t[i].1
        != t[j].1 by {
        assert(i == 0);
        assert(j == 0);
    }
}

proof fn lemma_terminal_mode_distinct()
    ensures
        nodes_distinct(terminal_mode_table()),
{
    reveal_strlit("normal");
    reveal_strlit("print");
    reveal_strlit("bonus");
    reveal_strlit("disabled");
    let t = terminal_mode_table();
    assert("normal"@.len() != "print"@.len());
    assert("normal"@.len() != "bonus"@.len());
    assert("normal"@.len() != "disabled"@.len());
    assert("print"@[0] != "bonus"@[0]);
    assert("print"@.len() != "disabled"@.len());
    assert("bonus"@.len() != "disabled"@.len());
    assert forall|i: int, j: int| 0 <= i < t.len() && 0 <= j < t.len() && i != j implies t[i].0 != t[j].0 && t[i].1
        != t[j].1 by {
        assert(i == 0 || i == 1 || i == 2 || i == 3);
        assert(j == 0 || j == 1 || j == 2 || j == 3);
    }
}

proof fn lemma_charge_report_status_distinct()
    ensures
        nodes_distinct(charge_report_status_table()),
{
    reveal_strlit("unhandle");
    reveal_strlit("handled");
    let t = charge_report_status_table();
    assert("unhandle"@.len() != "handled"@.len());
    assert forall|i: int, j: int| 0 <= i < t.len() && 0 <= j < t.len() && i != j implies t[i].0 != t[j].0 && t[i].1
        != t[j].1 by {
        assert(i == 0 || i == 1);
        assert(j == 0 || j == 1);
    }
}

/// No standard table repeats an id or a code.
proof fn lemma_standard_tables_distinct()
    ensures
        forall|k: int| 0 <= k < standard_tables().len() ==> nodes_distinct(#[trigger] standard_tables()[k].1),
{
    lemma_user_type_distinct();
    lemma_file_type_distinct();
    lemma_desk_status_distinct();
    lemma_moneylog_type_distinct();
    lemma_term_status_distinct();
    lemma_ticket_status_distinct();
    lemma_sys_mode_distinct();
    lemma_terminal_status_distinct();
    lemma_terminal_type_distinct();
    lemma_terminal_hard_type_distinct();
    lemma_province_type_distinct();
    lemma_terminal_soft_type_distinct();
    lemma_terminal_mode_distinct();
    lemma_charge_report_status_distinct();
}

proof fn lemma_last_with_code_member(nodes: Seq<(i32, Seq<char>, Seq<char>)>, code: Seq<char>)
    ensures
        last_with_code(nodes, code) matches Some(n) ==> n.1 == code && exists|i: int| 0 <= i < nodes.len() && nodes[i] == n,
    decreases nodes.len(),
{
    if nodes.len() > 0 && nodes.last().1 != code {
        lemma_last_with_code_member(nodes.drop_last(), code);
        if let Some(n) = last_with_code(nodes, code) {
            let i = choose|i: int| 0 <= i < nodes.drop_last().len() && nodes.drop_last()[i] == n;
            assert(nodes[i] == n);
        }
    } else if nodes.len() > 0 {
        assert(nodes[nodes.len() - 1] == nodes.last());
    }
}

proof fn lemma_last_with_id_member(nodes: Seq<(i32, Seq<char>, Seq<char>)>, id: i32)
    ensures
        last_with_id(nodes, id) matches Some(n) ==> n.0 == id && exists|i: int| 0 <= i < nodes.len() && nodes[i] == n,
    decreases nodes.len(),
{
    if nodes.len() > 0 && nodes.last().0 != id {
        lemma_last_with_id_member(nodes.drop_last(), id);
        if let Some(n) = last_with_id(nodes, id) {
            let i = choose|i: int| 0 <= i < nodes.drop_last().len() && nodes.drop_last()[i] == n;
            assert(nodes[i] == n);
        }
    } else if nodes.len() > 0 {
        assert(nodes[nodes.len() - 1] == nodes.last());
    }
}

proof fn lemma_table_nodes_member(tables: Seq<(Seq<char>, Seq<(i32, Seq<char>, Seq<char>)>)>, name: Seq<char>)
    ensures
        table_nodes(tables, name) matches Some(t) ==> exists|k: int| 0 <= k < tables.len() && tables[k].1 == t,
    decreases tables.len(),
{
    if tables.len() > 0 && tables.last().0 != name {
        lemma_table_nodes_member(tables.drop_last(), name);
        if let Some(t) = table_nodes(tables, name) {
            let k = choose|k: int| 0 <= k < tables.drop_last().len() && tables.drop_last()[k].1 == t;
            assert(tables[k].1 == t);
        }
    } else if tables.len() > 0 {
        assert(tables[tables.len() - 1] == tables.last());
    }
}

/// The nodes of the standard table named `name`.
pub open spec fn standard_table(name: Seq<char>) -> Seq<(i32, Seq<char>, Seq<char>)> {
    table_nodes(standard_tables(), name)->0
}

/// In every table that `ConsFactory::new` builds, no two nodes share an id or
/// a code. So a node found by its code (`code_to_id`, `code_to_desc`) is the
/// node found again by its id (`id_to_code`, `id_to_desc`), and a node found
/// by its id is the node found again by its code: the two lookups undo each
/// other, and the description of a code is the description of its id.
pub proof fn lemma_standard_round_trip(name: Seq<char>, code: Seq<char>, id: i32)
    requires
        table_nodes(standard_tables(), name) is Some,
    ensures
        nodes_distinct(standard_table(name)),
        last_with_code(standard_table(name), code) matches Some(n) ==> n.1 == code && last_with_id(
            standard_table(name),
            n.0,
        ) == Some(n),
        last_with_id(standard_table(name), id) matches Some(n) ==> n.0 == id && last_with_code(
            standard_table(name),
            n.1,
        ) == Some(n),
{
    let t = standard_table(name);
    lemma_standard_tables_distinct();
    lemma_table_nodes_member(standard_tables(), name);
    let k = choose|k: int| 0 <= k < standard_tables().len() && standard_tables()[k].1 == t;
    assert(nodes_distinct(standard_tables()[k].1));
    lemma_last_with_code_member(t, code);
    lemma_last_with_id_member(t, id);
    if let Some(n) = last_with_code(t, code) {
        let i = choose|i: int| 0 <= i < t.len() && t[i] == n;
        lemma_code_id_round_trip(t, i);
    }
    if let Some(n) = last_with_id(t, id) {
        let i = choose|i: int| 0 <= i < t.len() && t[i] == n;
        lemma_code_id_round_trip(t, i);
    }
}

/// The constant tables of the system and the descriptions of the error codes.
pub struct ConsFactory {
    cons: Vec<(String, Cons)>,
    err_map: BTreeMap<i32, String>,
}

fn push_table(cons: &mut Vec<(String, Cons)>, name: &str, c: Cons)
    requires
        c.wf(),
    ensures
        final(cons)@.len() == old(cons)@.len() + 1,
        forall|i: int| 0 <= i < old(cons)@.len() ==> final(cons)@[i] == old(cons)@[i],
        final(cons)@.last().0@ == name@,
        final(cons)@.last().1 == c,
{
    cons.push((String::from_str(name), c));
}

impl ConsFactory {
    /// The tables, by name.
    pub closed spec fn tables(&self) -> Seq<(Seq<char>, Seq<(i32, Seq<char>, Seq<char>)>)> {
        self.cons@.map_values(|e: (String, Cons)| (e.0@, e.1@))
    }

    /// The descriptions of the error codes.
    pub closed spec fn errors(&self) -> Map<i32, String> {
        self.err_map@
    }

    #[verifier::type_invariant]
    closed spec fn inv(&self) -> bool {
        forall|i: int| 0 <= i < self.cons@.len() ==> (#[trigger] self.cons@[i]).1.wf()
    }

    /// The standard tables and error descriptions.
    pub fn new() -> (f: ConsFactory)
        ensures
            f.tables() == standard_tables(),
            describes_errors(f.errors()),
    {
        let mut cons: Vec<(String, Cons)> = Vec::new();
    push_table(&mut cons, "user_type", user_type_cons());
    push_table(&mut cons, "file_type", file_type_cons());
    push_table(&mut cons, "desk_status", desk_status_cons());
    push_table(&mut cons, "moneylog_type", moneylog_type_cons());
    push_table(&mut cons, "term_status", term_status_cons());
    push_table(&mut cons, "ticket_status", ticket_status_cons());
    push_table(&mut cons, "sys_mode", sys_mode_cons());
    push_table(&mut cons, "terminal_status", terminal_status_cons());
    push_table(&mut cons, "terminal_type", terminal_type_cons());
    push_table(&mut cons, "terminal_hard_type", terminal_hard_type_cons());
    push_table(&mut cons, "province_type", province_type_cons());
    push_table(&mut cons, "terminal_soft_type", terminal_soft_type_cons());
    push_table(&mut cons, "terminal_mode", terminal_mode_cons());
    push_table(&mut cons, "charge_report_status", charge_report_status_cons());
        let err_map = get_err_map();
        let f = ConsFactory { cons: cons, err_map: err_map };
        assert(f.tables() =~= standard_tables());
        f
    }

    fn table(&self, name: &str) -> (c: &Cons)
        requires
            table_nodes(self.tables(), name@) is Some,
        ensures
            c.wf(),
            Some(c@) == table_nodes(self.tables(), name@),
    {
        proof {
            use_type_invariant(self);
        }
        let mut i = self.cons.len();
        assert(self.tables().take(i as int) =~= self.tables());
        while i > 0
            invariant
                i <= self.cons@.len(),
                table_nodes(self.tables(), name@) == table_nodes(self.tables().take(i as int), name@),
                forall|k: int| 0 <= k < self.cons@.len() ==> (#[trigger] self.cons@[k]).1.wf(),
            decreases i,
        {
            let e = &self.cons[i - 1];
            let ghost t = self.tables().take(i as int);
            assert(t.last() == (e.0@, e.1@));
            assert(t.drop_last() =~= self.tables().take(i - 1));
            if str_eq(e.0.as_str(), name) {
                return &e.1;
            }
            i = i - 1;
        }
        assert(self.tables().take(0) =~= Seq::<(Seq<char>, Seq<(i32, Seq<char>, Seq<char>)>)>::empty());
        &self.cons[0].1
    }

    /// The last node with the id `id` in the table `name`.
    pub fn by_id(&self, name: &str, id: i32) -> (r: Option<&Arc<ConsNode>>)
        requires
            table_nodes(self.tables(), name@) is Some,
        ensures
            r is None <==> last_with_id(table_nodes(self.tables(), name@)->0, id) is None,
            r matches Some(n) ==> Some((**n)@) == last_with_id(table_nodes(self.tables(), name@)->0, id),
    {
        let c = self.table(name);
        c.by_id(id)
    }

    /// The last node with the code `code` in the table `name`.
    pub fn by_code(&self, name: &str, code: &str) -> (r: Option<&Arc<ConsNode>>)
        requires
            table_nodes(self.tables(), name@) is Some,
        ensures
            r is None <==> last_with_code(table_nodes(self.tables(), name@)->0, code@) is None,
            r matches Some(n) ==> Some((**n)@) == last_with_code(table_nodes(self.tables(), name@)->0, code@),
    {
        let c = self.table(name);
        c.by_code(code)
    }

    /// The id of the code `code` in the table `name`, or `ValueNotExist`.
    pub fn code_to_id(&self, name: &str, code: &str) -> (r: Result<i32, i32>)
        requires
            table_nodes(self.tables(), name@) is Some,
        ensures
            r == match last_with_code(table_nodes(self.tables(), name@)->0, code@) {
                Some(n) => Ok::<i32, i32>(n.0),
                None => Err(err_num(ErrCode::ValueNotExist)),
            },
    {
        match self.by_code(name, code) {
            Some(x) => Ok(x.id),
            None => Err(ErrCode::ValueNotExist.code()),
        }
    }

    /// The code of the id `id` in the table `name`, or `ValueNotExist`.
    pub fn id_to_code(&self, name: &str, id: i32) -> (r: Result<String, i32>)
        requires
            table_nodes(self.tables(), name@) is Some,
        ensures
            match last_with_id(table_nodes(self.tables(), name@)->0, id) {
                Some(n) => r matches Ok(s) && s@ == n.1,
                None => r == Err::<String, i32>(err_num(ErrCode::ValueNotExist)),
            },
    {
        match self.by_id(name, id) {
            Some(x) => Ok(x.code.clone()),
            None => Err(ErrCode::ValueNotExist.code()),
        }
    }

    /// The description of the id `id` in the table `name`, or `ValueNotExist`.
    pub fn id_to_desc(&self, name: &str, id: i32) -> (r: Result<&str, i32>)
        requires
            table_nodes(self.tables(), name@) is Some,
        ensures
            match last_with_id(table_nodes(self.tables(), name@)->0, id) {
                Some(n) => r matches Ok(s) && s@ == n.2,
                None => r == Err::<&str, i32>(err_num(ErrCode::ValueNotExist)),
            },
    {
        match self.by_id(name, id) {
            Some(x) => Ok(x.desc.as_str()),
            None => Err(ErrCode::ValueNotExist.code()),
        }
    }

    /// The description of the code `code` in the table `name`, or `ValueNotExist`.
    pub fn code_to_desc(&self, name: &str, code: &str) -> (r: Result<&str, i32>)
        requires
            table_nodes(self.tables(), name@) is Some,
        ensures
            match last_with_code(table_nodes(self.tables(), name@)->0, code@) {
                Some(n) => r matches Ok(s) && s@ == n.2,
                None => r == Err::<&str, i32>(err_num(ErrCode::ValueNotExist)),
            },
    {
        match self.by_code(name, code) {
            Some(x) => Ok(x.desc.as_str()),
            None => Err(ErrCode::ValueNotExist.code()),
        }
    }

    /// The description of the error number `code`, where it has one.
    pub fn get_err_des(&self, code: i32) -> (r: Option<&String>)
        ensures
            r is None <==> !self.errors().contains_key(code),
            r matches Some(s) ==> *s == self.errors()[code],
    {
        self.err_map.get(&code)
    }

    /// The error number `code` with its description, or with `未知错误`
    /// where it has none.
    pub fn get_err(&self, code: i32) -> (r: (i32, String))
        ensures
            r.0 == code,
            self.errors().contains_key(code) ==> r.1@ == self.errors()[code]@,
            !self.errors().contains_key(code) ==> r.1@ == "未知错误"@,
    {
        match self.err_map.get(&code) {
            Some(des) => (code, des.clone()),
            None => (code, String::from_str("未知错误")),
        }
    }
}

/// A prize level of a game: its level, its bonus and bonus after tax per bet,
/// and its description.
pub struct GameLevel {
    pub lev: i32,
    pub bonus: i64,
    pub bonus_after_tax: i64,
    pub descrip: String,
}

impl View for GameLevel {
    type V = (i32, i64, i64, Seq<char>);

    open spec fn view(&self) -> (i32, i64, i64, Seq<char>) {
        (self.lev, self.bonus, self.bonus_after_tax, self.descrip@)
    }
}

/// The level `lev` with its bonuses and description.
pub fn get_level(lev: i32, bonus: i64, bonus_after_tax: i64, descrip: &str) -> (gl: GameLevel)
    ensures
        gl@ == (lev, bonus, bonus_after_tax, descrip@),
{
    GameLevel { lev: lev, bonus: bonus, bonus_after_tax: bonus_after_tax, descrip: String::from_str(descrip) }
}

/// The prize levels of the big lottery, the template of each draw.
pub open spec fn dlt_levels() -> Seq<(i32, i64, i64, Seq<char>)> {
    seq![
        (1i32, 0i64, 0i64, "一等奖"@),
        (2i32, 0i64, 0i64, "二等奖"@),
        (3i32, 0i64, 0i64, "三等奖"@),
        (4i32, 20000i64, 20000i64, "四等奖"@),
        (5i32, 1000i64, 1000i64, "五等奖"@),
        (6i32, 500i64, 500i64, "六等奖"@),
        (7i32, 0i64, 0i64, "一等奖追加"@),
        (8i32, 0i64, 0i64, "二等奖追加"@),
        (9i32, 0i64, 0i64, "三等奖追加"@),
        (10i32, 10000i64, 10000i64, "四等奖追加"@),
        (11i32, 500i64, 500i64, "五等奖追加"@),
        (12i32, 0i64, 0i64, "六等奖派奖"@),
    ]
}

/// The prize level templates, by game.
pub struct GameLevelFactory {
    gv_map: BTreeMap<i32, Vec<GameLevel>>,
}

impl View for GameLevelFactory {
    type V = Map<i32, Seq<(i32, i64, i64, Seq<char>)>>;

    closed spec fn view(&self) -> Map<i32, Seq<(i32, i64, i64, Seq<char>)>> {
        self.gv_map@.map_values(|v: Vec<GameLevel>| v@.map_values(|g: GameLevel| g@))
    }
}

impl GameLevelFactory {
    /// The templates: the twelve levels of the big lottery (game 200).
    pub fn new() -> (f: GameLevelFactory)
        ensures
            f@ == Map::<i32, Seq<(i32, i64, i64, Seq<char>)>>::empty().insert(200, dlt_levels()),
    {
        let mut dlt: Vec<GameLevel> = Vec::new();
        dlt.push(get_level(1, 0, 0, "一等奖"));
        dlt.push(get_level(2, 0, 0, "二等奖"));
        dlt.push(get_level(3, 0, 0, "三等奖"));
        dlt.push(get_level(4, 20000, 20000, "四等奖"));
        dlt.push(get_level(5, 1000, 1000, "五等奖"));
        dlt.push(get_level(6, 500, 500, "六等奖"));
        dlt.push(get_level(7, 0, 0, "一等奖追加"));
        dlt.push(get_level(8, 0, 0, "二等奖追加"));
        dlt.push(get_level(9, 0, 0, "三等奖追加"));
        dlt.push(get_level(10, 10000, 10000, "四等奖追加"));
        dlt.push(get_level(11, 500, 500, "五等奖追加"));
        dlt.push(get_level(12, 0, 0, "六等奖派奖"));
        assert(dlt@.map_values(|g: GameLevel| g@) =~= dlt_levels());
        let mut gv_map: BTreeMap<i32, Vec<GameLevel>> = BTreeMap::new();
        gv_map.insert(200, dlt);
        let f = GameLevelFactory { gv_map: gv_map };
        assert(f@ =~= Map::<i32, Seq<(i32, i64, i64, Seq<char>)>>::empty().insert(200, dlt_levels()));
        f
    }

    /// The levels of the game `game_id`, where it has a template.
    pub fn get_by_game_id(&self, game_id: i32) -> (r: Option<&Vec<GameLevel>>)
        ensures
            r is None <==> !self@.contains_key(game_id),
            r matches Some(v) ==> v@.map_values(|g: GameLevel| g@) == self@[game_id],
    {
        self.gv_map.get(&game_id)
    }
}


} // verus!
