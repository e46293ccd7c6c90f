use vstd::prelude::*;
use std::collections::BTreeMap;
use crate::cons::{err_num, ErrCode};

verus! {

/// A ticket: what was bet, in which game, with which play and bet type.
pub struct Ticket {
    id: i64,
    game_id: i32,
    play_type: i32,
    bet_type: i32,
    icount: i32,
    amount: i32,
    multiple: i32,
    number: String,
}

impl Ticket {
    /// The ticket with the given fields; note that `multiple` comes before `amount`.
    pub fn new(
        id: i64,
        game_id: i32,
        play_type: i32,
        bet_type: i32,
        icount: i32,
        multiple: i32,
        amount: i32,
        number: &str,
    ) -> (t: Ticket)
        ensures
            t.id() == id,
            t.game_id() == game_id,
            t.play_type() == play_type,
            t.bet_type() == bet_type,
            t.icount() == icount,
            t.multiple() == multiple,
            t.amount() == amount,
            t.number() == number@,
    {
        Ticket {
            id: id,
            game_id: game_id,
            play_type: play_type,
            bet_type: bet_type,
            multiple: multiple,
            icount: icount,
            amount: amount,
            number: String::from_str(number),
        }
    }

    pub closed spec fn id(&self) -> i64 {
        self.id
    }

    pub closed spec fn game_id(&self) -> i32 {
        self.game_id
    }

    pub closed spec fn play_type(&self) -> i32 {
        self.play_type
    }

    pub closed spec fn bet_type(&self) -> i32 {
        self.bet_type
    }

    /// The number of bets the ticket claims.
    pub closed spec fn icount(&self) -> i32 {
        self.icount
    }

    /// The amount the ticket claims, in cents.
    pub closed spec fn amount(&self) -> i32 {
        self.amount
    }

    pub closed spec fn multiple(&self) -> i32 {
        self.multiple
    }

    /// The bet numbers.
    pub closed spec fn number(&self) -> Seq<char> {
        self.number@
    }

    pub fn get_game_id(&self) -> (r: i32)
        ensures
            r == self.game_id(),
    {
        self.game_id
    }

    pub fn get_amount(&self) -> (r: i32)
        ensures
            r == self.amount(),
    {
        self.amount
    }

    pub fn get_multiple(&self) -> (r: i32)
        ensures
            r == self.multiple(),
    {
        self.multiple
    }

    pub fn get_number(&self) -> (r: &str)
        ensures
            r@ == self.number(),
    {
        self.number.as_str()
    }

    pub fn get_play_type(&self) -> (r: i32)
        ensures
            r == self.play_type(),
    {
        self.play_type
    }

    pub fn get_bet_type(&self) -> (r: i32)
        ensures
            r == self.bet_type(),
    {
        self.bet_type
    }

    pub fn get_icount(&self) -> (r: i32)
        ensures
            r == self.icount(),
    {
        self.icount
    }

    pub fn get_id(&self) -> (r: i64)
        ensures
            r == self.id(),
    {
        self.id
    }
}

/// A bet type's id and name.
pub type BetTypeView = (i32, Seq<char>);

/// A play type's id, price, name and bet types by key.
pub type PlayTypeView = (i32, i32, Seq<char>, Map<i32, BetTypeView>);

/// A game's id, code, name and play types by key.
pub type GameView = (i32, Seq<char>, Seq<char>, Map<i32, PlayTypeView>);

/// A way of betting within a play type, such as a single or a multiple bet.
pub struct BetType {
    pub id: i32,
    name: String,
}

impl View for BetType {
    type V = BetTypeView;

    closed spec fn view(&self) -> BetTypeView {
        (self.id, self.name@)
    }
}

impl BetType {
    pub fn new(id: i32, name: &str) -> (b: BetType)
        ensures
            b@ == (id, name@),
    {
        BetType { id: id, name: String::from_str(name) }
    }

    /// The id of the bet type.
    pub fn get_id(&self) -> (r: i32)
        ensures
            r == self@.0,
    {
        self.id
    }
}

/// A play type of a game, with its price per bet in cents.
pub struct PlayType {
    pub id: i32,
    pub price: i32,
    pub name: String,
    pub map: BTreeMap<i32, BetType>,
}

impl View for PlayType {
    type V = PlayTypeView;

    open spec fn view(&self) -> PlayTypeView {
        (self.id, self.price, self.name@, self.map@.map_values(|b: BetType| b@))
    }
}

impl PlayType {
    pub fn new(id: i32, price: i32, name: &str, map: BTreeMap<i32, BetType>) -> (p: PlayType)
        ensures
            p@ == (id, price, name@, map@.map_values(|b: BetType| b@)),
    {
        PlayType { id: id, price: price, name: String::from_str(name), map: map }
    }

    /// The price of one bet, in cents.
    pub fn get_price(&self) -> (r: i32)
        ensures
            r == self@.1,
    {
        self.price
    }

    /// The bet type under the key `bet_type_id`, or `BetTypeNotExists`.
    pub fn get_bet_type(&self, bet_type_id: i32) -> (r: Result<&BetType, i32>)
        ensures
            r is Err <==> !self@.3.contains_key(bet_type_id),
            r matches Err(e) ==> e == err_num(ErrCode::BetTypeNotExists),
            r matches Ok(b) ==> self@.3.contains_key(bet_type_id) && b@ == self@.3[bet_type_id],
    {
        match self.map.get(&bet_type_id) {
            Some(b) => Ok(b),
            None => Err(ErrCode::BetTypeNotExists.code()),
        }
    }
}

/// A game of the system.
pub struct Game {
    id: i32,
    code: String,
    name: String,
    map: BTreeMap<i32, PlayType>,
}

impl View for Game {
    type V = GameView;

    closed spec fn view(&self) -> GameView {
        (self.id, self.code@, self.name@, self.map@.map_values(|p: PlayType| p@))
    }
}

impl Game {
    /// A game with its unique id, its short code and its name.
    pub fn new(id: i32, code: &str, name: &str, map: BTreeMap<i32, PlayType>) -> (g: Game)
        ensures
            g@ == (id, code@, name@, map@.map_values(|p: PlayType| p@)),
    {
        Game { id: id, code: String::from_str(code), name: String::from_str(name), map: map }
    }

    pub fn get_id(&self) -> (r: i32)
        ensures
            r == self@.0,
    {
        self.id
    }

    pub fn get_name(&self) -> (r: &str)
        ensures
            r@ == self@.2,
    {
        self.name.as_str()
    }

    pub fn get_code(&self) -> (r: &str)
        ensures
            r@ == self@.1,
    {
        self.code.as_str()
    }

    /// The play type under the key `play_type_id`, or `PlayTypeNotExists`.
    pub fn get_play_type(&self, play_type_id: i32) -> (r: Result<&PlayType, i32>)
        ensures
            r is Err <==> !self@.3.contains_key(play_type_id),
            r matches Err(e) ==> e == err_num(ErrCode::PlayTypeNotExists),
            r matches Ok(p) ==> self@.3.contains_key(play_type_id) && p@ == self@.3[play_type_id],
    {
        match self.map.get(&play_type_id) {
            Some(p) => Ok(p),
            None => Err(ErrCode::PlayTypeNotExists.code()),
        }
    }
}

/// The `SSQ` game.
pub open spec fn ssq_game_view() -> GameView {
    (100i32, "SSQ"@, "双色球"@, Map::<i32, PlayTypeView>::empty()
        .insert(10i32, (10i32, 200i32, "标准"@, Map::<i32, BetTypeView>::empty().insert(10i32, (10i32, "单式"@)).insert(20i32, (20i32, "复式"@)).insert(30i32, (30i32, "胆托"@)))))
}

/// The `DLT` game.
pub open spec fn dlt_game_view() -> GameView {
    (200i32, "DLT"@, "大乐透"@, Map::<i32, PlayTypeView>::empty()
        .insert(10i32, (10i32, 200i32, "标准"@, Map::<i32, BetTypeView>::empty().insert(10i32, (10i32, "单式"@)).insert(20i32, (20i32, "复式"@)).insert(30i32, (30i32, "胆托"@))))
        .insert(60i32, (60i32, 300i32, "追加"@, Map::<i32, BetTypeView>::empty().insert(10i32, (10i32, "单式"@)).insert(20i32, (20i32, "复式"@)).insert(30i32, (30i32, "胆托"@)))))
}

/// The `JCD` game.
pub open spec fn jcd_game_view() -> GameView {
    (202i32, "JCD"@, "竞彩单关"@, Map::<i32, PlayTypeView>::empty()
        .insert(1i32, (1i32, 200i32, "胜平负"@, Map::<i32, BetTypeView>::empty().insert(1i32, (1i32, "单关"@))))
        .insert(2i32, (2i32, 200i32, "让球胜平负"@, Map::<i32, BetTypeView>::empty().insert(1i32, (1i32, "单关"@))))
        .insert(3i32, (3i32, 200i32, "总进球数"@, Map::<i32, BetTypeView>::empty().insert(1i32, (1i32, "单关"@))))
        .insert(4i32, (4i32, 200i32, "比分"@, Map::<i32, BetTypeView>::empty().insert(1i32, (1i32, "单关"@))))
        .insert(5i32, (5i32, 200i32, "半全场"@, Map::<i32, BetTypeView>::empty().insert(1i32, (1i32, "单关"@)))))
}

/// The `JCC` game.
pub open spec fn jcc_game_view() -> GameView {
    (201i32, "JCC"@, "竞彩串关"@, Map::<i32, PlayTypeView>::empty()
        .insert(1i32, (1i32, 200i32, "胜平负"@, Map::<i32, BetTypeView>::empty().insert(2i32, (2i32, "串关"@))))
        .insert(2i32, (2i32, 200i32, "让球胜平负"@, Map::<i32, BetTypeView>::empty().insert(2i32, (2i32, "串关"@))))
        .insert(3i32, (3i32, 200i32, "总进球数"@, Map::<i32, BetTypeView>::empty().insert(2i32, (2i32, "串关"@))))
        .insert(4i32, (4i32, 200i32, "比分"@, Map::<i32, BetTypeView>::empty().insert(2i32, (2i32, "串关"@))))
        .insert(5i32, (5i32, 200i32, "半全场"@, Map::<i32, BetTypeView>::empty().insert(2i32, (2i32, "串关"@))))
        .insert(10i32, (10i32, 200i32, "混投"@, Map::<i32, BetTypeView>::empty().insert(2i32, (2i32, "串关"@)))))
}

/// The `PLS` game.
pub open spec fn pls_game_view() -> GameView {
    (203i32, "PLS"@, "排列三"@, Map::<i32, PlayTypeView>::empty()
        .insert(1i32, (1i32, 200i32, "直选"@, Map::<i32, BetTypeView>::empty().insert(1i32, (1i32, "单式"@)).insert(2i32, (2i32, "复式"@)).insert(3i32, (4i32, "和值"@))))
        .insert(2i32, (2i32, 200i32, "组三"@, Map::<i32, BetTypeView>::empty().insert(1i32, (1i32, "单式"@)).insert(2i32, (2i32, "复式"@))))
        .insert(3i32, (3i32, 200i32, "组六"@, Map::<i32, BetTypeView>::empty().insert(1i32, (1i32, "单式"@)).insert(2i32, (2i32, "复式"@)))))
}

/// The `JCL` game.
pub open spec fn jcl_game_view() -> GameView {
    (301i32, "JCL"@, "竞彩篮球"@, Map::<i32, PlayTypeView>::empty()
        .insert(1i32, (1i32, 200i32, "胜负"@, Map::<i32, BetTypeView>::empty().insert(1i32, (1i32, "单关"@)).insert(2i32, (2i32, "串关"@))))
        .insert(2i32, (2i32, 200i32, "让分胜负"@, Map::<i32, BetTypeView>::empty().insert(1i32, (1i32, "单关"@)).insert(2i32, (2i32, "串关"@))))
        .insert(3i32, (3i32, 200i32, "胜分差"@, Map::<i32, BetTypeView>::empty().insert(1i32, (1i32, "单关"@)).insert(2i32, (2i32, "串关"@))))
        .insert(4i32, (4i32, 200i32, "大小分"@, Map::<i32, BetTypeView>::empty().insert(1i32, (1i32, "单关"@)).insert(2i32, (2i32, "串关"@))))
        .insert(10i32, (10i32, 200i32, "混投"@, Map::<i32, BetTypeView>::empty().insert(2i32, (2i32, "串关"@)))))
}

fn get_ssq_game() -> (game: Game)
    ensures
        game@ == ssq_game_view(),
{
    let mut play_map: BTreeMap<i32, PlayType> = BTreeMap::new();
    let mut bet_map: BTreeMap<i32, BetType> = BTreeMap::new();
    bet_map.insert(10, BetType::new(10, "单式"));
    bet_map.insert(20, BetType::new(20, "复式"));
    bet_map.insert(30, BetType::new(30, "胆托"));
    play_map.insert(10, PlayType::new(10, 200, "标准", bet_map));
    let game = Game::new(100, "SSQ", "双色球", play_map);
    assert(game@ =~~= ssq_game_view());
    game
}

fn get_dlt_game() -> (game: Game)
    ensures
        game@ == dlt_game_view(),
{
    let mut play_map: BTreeMap<i32, PlayType> = BTreeMap::new();
    let mut bet_map: BTreeMap<i32, BetType> = BTreeMap::new();
    bet_map.insert(10, BetType::new(10, "单式"));
    bet_map.insert(20, BetType::new(20, "复式"));
    bet_map.insert(30, BetType::new(30, "胆托"));
    play_map.insert(10, PlayType::new(10, 200, "标准", bet_map));
    let mut bet_map: BTreeMap<i32, BetType> = BTreeMap::new();
    bet_map.insert(10, BetType::new(10, "单式"));
    bet_map.insert(20, BetType::new(20, "复式"));
    bet_map.insert(30, BetType::new(30, "胆托"));
    play_map.insert(60, PlayType::new(60, 300, "追加", bet_map));
    let game = Game::new(200, "DLT", "大乐透", play_map);
    assert(game@ =~~= dlt_game_view());
    game
}

fn get_jcd_game() -> (game: Game)
    ensures
        game@ == jcd_game_view(),
{
    let mut play_map: BTreeMap<i32, PlayType> = BTreeMap::new();
    let mut bet_map: BTreeMap<i32, BetType> = BTreeMap::new();
    bet_map.insert(1, BetType::new(1, "单关"));
    play_map.insert(1, PlayType::new(1, 200, "胜平负", bet_map));
    let mut bet_map: BTreeMap<i32, BetType> = BTreeMap::new();
    bet_map.insert(1, BetType::new(1, "单关"));
    play_map.insert(2, PlayType::new(2, 200, "让球胜平负", bet_map));
    let mut bet_map: BTreeMap<i32, BetType> = BTreeMap::new();
    bet_map.insert(1, BetType::new(1, "单关"));
    play_map.insert(3, PlayType::new(3, 200, "总进球数", bet_map));
    let mut bet_map: BTreeMap<i32, BetType> = BTreeMap::new();
    bet_map.insert(1, BetType::new(1, "单关"));
    play_map.insert(4, PlayType::new(4, 200, "比分", bet_map));
    let mut bet_map: BTreeMap<i32, BetType> = BTreeMap::new();
    bet_map.insert(1, BetType::new(1, "单关"));
    play_map.insert(5, PlayType::new(5, 200, "半全场", bet_map));
    let game = Game::new(202, "JCD", "竞彩单关", play_map);
    assert(game@ =~~= jcd_game_view());
    game
}

fn get_jcc_game() -> (game: Game)
    ensures
        game@ == jcc_game_view(),
{
    let mut play_map: BTreeMap<i32, PlayType> = BTreeMap::new();
    let mut bet_map: BTreeMap<i32, BetType> = BTreeMap::new();
    bet_map.insert(2, BetType::new(2, "串关"));
    play_map.insert(1, PlayType::new(1, 200, "胜平负", bet_map));
    let mut bet_map: BTreeMap<i32, BetType> = BTreeMap::new();
    bet_map.insert(2, BetType::new(2, "串关"));
    play_map.insert(2, PlayType::new(2, 200, "让球胜平负", bet_map));
    let mut bet_map: BTreeMap<i32, BetType> = BTreeMap::new();
    bet_map.insert(2, BetType::new(2, "串关"));
    play_map.insert(3, PlayType::new(3, 200, "总进球数", bet_map));
    let mut bet_map: BTreeMap<i32, BetType> = BTreeMap::new();
    bet_map.insert(2, BetType::new(2, "串关"));
    play_map.insert(4, PlayType::new(4, 200, "比分", bet_map));
    let mut bet_map: BTreeMap<i32, BetType> = BTreeMap::new();
    bet_map.insert(2, BetType::new(2, "串关"));
    play_map.insert(5, PlayType::new(5, 200, "半全场", bet_map));
    let mut bet_map: BTreeMap<i32, BetType> = BTreeMap::new();
    bet_map.insert(2, BetType::new(2, "串关"));
    play_map.insert(10, PlayType::new(10, 200, "混投", bet_map));
    let game = Game::new(201, "JCC", "竞彩串关", play_map);
    assert(game@ =~~= jcc_game_view());
    game
}

fn get_pls_game() -> (game: Game)
    ensures
        game@ == pls_game_view(),
{
    let mut play_map: BTreeMap<i32, PlayType> = BTreeMap::new();
    let mut bet_map: BTreeMap<i32, BetType> = BTreeMap::new();
    bet_map.insert(1, BetType::new(1, "单式"));
    bet_map.insert(2, BetType::new(2, "复式"));
    bet_map.insert(3, BetType::new(4, "和值"));
    play_map.insert(1, PlayType::new(1, 200, "直选", bet_map));
    let mut bet_map: BTreeMap<i32, BetType> = BTreeMap::new();
    bet_map.insert(1, BetType::new(1, "单式"));
    bet_map.insert(2, BetType::new(2, "复式"));
    play_map.insert(2, PlayType::new(2, 200, "组三", bet_map));
    let mut bet_map: BTreeMap<i32, BetType> = BTreeMap::new();
    bet_map.insert(1, BetType::new(1, "单式"));
    bet_map.insert(2, BetType::new(2, "复式"));
    play_map.insert(3, PlayType::new(3, 200, "组六", bet_map));
    let game = Game::new(203, "PLS", "排列三", play_map);
    assert(game@ =~~= pls_game_view());
    game
}

fn get_jcl_game() -> (game: Game)
    ensures
        game@ == jcl_game_view(),
{
    let mut play_map: BTreeMap<i32, PlayType> = BTreeMap::new();
    let mut bet_map: BTreeMap<i32, BetType> = BTreeMap::new();
    bet_map.insert(1, BetType::new(1, "单关"));
    bet_map.insert(2, BetType::new(2, "串关"));
    play_map.insert(1, PlayType::new(1, 200, "胜负", bet_map));
    let mut bet_map: BTreeMap<i32, BetType> = BTreeMap::new();
    bet_map.insert(1, BetType::new(1, "单关"));
    bet_map.insert(2, BetType::new(2, "串关"));
    play_map.insert(2, PlayType::new(2, 200, "让分胜负", bet_map));
    let mut bet_map: BTreeMap<i32, BetType> = BTreeMap::new();
    bet_map.insert(1, BetType::new(1, "单关"));
    bet_map.insert(2, BetType::new(2, "串关"));
    play_map.insert(3, PlayType::new(3, 200, "胜分差", bet_map));
    let mut bet_map: BTreeMap<i32, BetType> = BTreeMap::new();
    bet_map.insert(1, BetType::new(1, "单关"));
    bet_map.insert(2, BetType::new(2, "串关"));
    play_map.insert(4, PlayType::new(4, 200, "大小分", bet_map));
    let mut bet_map: BTreeMap<i32, BetType> = BTreeMap::new();
    bet_map.insert(2, BetType::new(2, "串关"));
    play_map.insert(10, PlayType::new(10, 200, "混投", bet_map));
    let game = Game::new(301, "JCL", "竞彩篮球", play_map);
    assert(game@ =~~= jcl_game_view());
    game
}

/// The games of the system, by id.
pub open spec fn standard_games() -> Map<i32, GameView> {
    Map::<i32, GameView>::empty()
        .insert(100i32, ssq_game_view())
        .insert(200i32, dlt_game_view())
        .insert(202i32, jcd_game_view())
        .insert(201i32, jcc_game_view())
        .insert(203i32, pls_game_view())
        .insert(301i32, jcl_game_view())
}

/// The games of the system, by id.
pub struct GameFactory {
    game_list: BTreeMap<i32, Game>,
}

impl View for GameFactory {
    type V = Map<i32, GameView>;

    closed spec fn view(&self) -> Map<i32, GameView> {
        self.game_list@.map_values(|g: Game| g@)
    }
}

impl GameFactory {
    /// The factory of the six games of the system.
    pub fn new() -> (f: GameFactory)
        ensures
            f@ == standard_games(),
    {
        let mut map: BTreeMap<i32, Game> = BTreeMap::new();
        let game = get_ssq_game();
        map.insert(game.get_id(), game);
        let game = get_dlt_game();
        map.insert(game.get_id(), game);
        let game = get_jcd_game();
        map.insert(game.get_id(), game);
        let game = get_jcc_game();
        map.insert(game.get_id(), game);
        let game = get_pls_game();
        map.insert(game.get_id(), game);
        let game = get_jcl_game();
        map.insert(game.get_id(), game);
        let f = GameFactory { game_list: map };
        assert(f@ =~= standard_games());
        f
    }

    /// The game with the id `id`, or `GameNotExists`.
    pub fn get_game_by_id(&self, id: i32) -> (r: Result<&Game, i32>)
        ensures
            r is Err <==> !self@.contains_key(id),
            r matches Err(e) ==> e == err_num(ErrCode::GameNotExists),
            r matches Ok(g) ==> self@.contains_key(id) && g@ == self@[id],
    {
        match self.game_list.get(&id) {
            Some(g) => Ok(g),
            None => Err(ErrCode::GameNotExists.code()),
        }
    }

    /// The games, by id.
    pub fn get_game_list(&self) -> (r: &BTreeMap<i32, Game>)
        ensures
            r@.map_values(|g: Game| g@) == self@,
    {
        &self.game_list
    }
}

/// What a terminal prints for a sports ticket: the ticket number with the
/// rates read from the stub that the terminal printed.
pub trait Print {
    /// The number and the stub from which a print number can be made.
    spec fn printable(&self, number: Seq<char>, stub: Seq<char>) -> bool;

    /// The print number made from the number and the stub.
    spec fn print_number(&self, number: Seq<char>, stub: Seq<char>) -> Seq<char>;

    /// The print number of `number` with the rates of `stub`.
    fn get_print_number(&self, number: &str, stub: &str) -> (r: String)
        requires
            self.printable(number@, stub@),
        ensures
            r@ == self.print_number(number@, stub@),
    ;
}

} // verus!
