use std::sync::{Arc, Mutex};
use trade_watch::classify::{is_trade, type_person_info, TradeType};
use trade_watch::model::{Model, ModelError, TradeInfo};

/// A call counter that can be captured by subscriber callbacks.
#[derive(Clone)]
struct Callable {
    n: Arc<Mutex<u64>>,
}

impl Callable {
    fn new() -> Self {
        Callable { n: Arc::new(Mutex::new(0)) }
    }

    fn call(&self) {
        *self.n.lock().unwrap() += 1;
    }

    fn count(&self) -> u64 {
        *self.n.lock().unwrap()
    }
}

#[test]
fn regexps() {
    let msg = r#"@From <TestGuild> 匚丹匚丹几丹: Hi, I would like to buy your Aegis Aurora Champion Kite Shield listed for 5 awakened-sextant in Ancestor (stash tab "~b/o 4.99 awakened-sextant"; position: left 9, top 7)"#;

    assert!(is_trade(msg));
    assert!(!is_trade("some specific information"));

    let (trade_type, guild, char) = type_person_info(msg);
    assert_eq!(trade_type, TradeType::Incoming);
    assert_eq!(guild, Some("TestGuild".to_string()));
    assert_eq!(char, "匚丹匚丹几丹".to_string());
}

#[test]
fn messages() {
    let mut model = Model::new();
    let clb = Callable::new();
    {
        let clb2 = clb.clone();
        model.outgoing_subscribe(move |_og: &TradeInfo| {
            clb2.call();
        });
        let clb = clb.clone();
        model.incoming_subscribe(move |_og: &TradeInfo| {
            clb.call();
        });
    }

    let msgs = [
        r#"@From <TestGuild> 匚丹匚丹几丹: Hi, I would like to buy your Aegis Aurora Champion Kite Shield listed for 5 awakened-sextant in Ancestor (stash tab "~b/o 4.99 awakened-sextant"; position: left 9, top 7)"#,
        r#"@To 匚丹匚丹几丹: Hi, I would like to buy your Aegis Aurora Champion Kite Shield listed for 5 awakened-sextant in Ancestor (stash tab "~b/o 4.99 awakened-sextant"; position: left 9, top 7)"#,
        r#"16642: 2020/06/23 17:07:09 1067255656 b5c [INFO Client 10768] @From sethmera: Hi, I would like to buy your Onslaught Bind Chain Belt listed for 1 awakened-sextant in Harvest (stash tab "~price 1 chaos"; position: left 2, top 1)"#,
        r#"2023/10/13 01:54:50 1054470421 cffb0719 [INFO Client 30680] @From SambaLe: Hi, I would like to buy your The Pandemonius, Jade Amulet listed for 4 divine in Ancestor (stash tab "pub"; position: left 11, top 1)"#,
    ];

    for m in msgs.iter() {
        model.try_add(m).unwrap();
    }
    assert_eq!(clb.count(), msgs.len() as u64);
}

#[test]
fn full_form_line_creates_one_incoming_record() {
    let mut model = Model::new();
    let incoming = Callable::new();
    let outgoing = Callable::new();
    {
        let c = incoming.clone();
        model.incoming_subscribe(move |_t: &TradeInfo| c.call());
        let c = outgoing.clone();
        model.outgoing_subscribe(move |_t: &TradeInfo| c.call());
    }
    let line = r#"@From <TestGuild> Alice: Hi, I would like to buy your Sunspite Dagger listed for 3 chaos in Standard (stash tab "sell"; position: left 2, top 5)"#;
    model.try_add(line).unwrap();

    assert_eq!(incoming.count(), 1);
    assert_eq!(outgoing.count(), 0);
    let recs = model.records();
    assert_eq!(recs.len(), 1);
    let r = &recs[0];
    assert_eq!(r.typ, TradeType::Incoming);
    assert_eq!(r.player_name, "Alice");
    assert_eq!(r.item_name, "Sunspite Dagger");
    assert_eq!(r.cost_number.as_deref(), Some("3"));
    assert_eq!(r.cost_currency.as_deref(), Some("chaos"));
    assert_eq!(r.league, "Standard");
    assert_eq!(r.stash.as_deref(), Some("sell"));
    assert_eq!(r.left.as_deref(), Some("2"));
    assert_eq!(r.top.as_deref(), Some("5"));
    assert_eq!(r.last_message, line);
}

#[test]
fn second_line_from_known_participant_merges() {
    let mut model = Model::new();
    let incoming = Callable::new();
    {
        let c = incoming.clone();
        model.incoming_subscribe(move |_t: &TradeInfo| c.call());
    }
    let first = r#"@From <TestGuild> Alice: Hi, I would like to buy your Sunspite Dagger listed for 3 chaos in Standard (stash tab "sell"; position: left 2, top 5)"#;
    let second = "@From Alice: thanks!";
    model.try_add(first).unwrap();
    let id = model.records()[0].id.clone();

    let r = model.try_add(second);
    assert!(r.is_ok());
    assert_eq!(incoming.count(), 2);
    let recs = model.records();
    assert_eq!(recs.len(), 1);
    assert_eq!(recs[0].id, id);
    assert_eq!(recs[0].last_message, second);
    assert_eq!(recs[0].item_name, "Sunspite Dagger");
}

#[test]
fn line_without_marker_is_ignored() {
    let mut model = Model::new();
    let incoming = Callable::new();
    let outgoing = Callable::new();
    {
        let c = incoming.clone();
        model.incoming_subscribe(move |_t: &TradeInfo| c.call());
        let c = outgoing.clone();
        model.outgoing_subscribe(move |_t: &TradeInfo| c.call());
    }
    let r = model.try_add("a perfectly ordinary chat line");
    assert!(r.is_ok());
    assert_eq!(model.records().len(), 0);
    assert_eq!(incoming.count(), 0);
    assert_eq!(outgoing.count(), 0);
}

#[test]
fn unrecognized_trade_line_is_rejected() {
    let mut model = Model::new();
    let line = "@From Carl: wanna trade?";
    let r = model.try_add(line);
    match r {
        Err(ModelError::ParseError(l)) => {
            assert_eq!(l, line);
        },
        _ => panic!("expected a parse error"),
    }
    assert_eq!(model.records().len(), 0);
}

#[test]
fn parse_error_message_names_the_line() {
    let e = ModelError::ParseError("@From Carl: wanna trade?".to_string());
    assert_eq!(e.message(), "can't parse line: @From Carl: wanna trade?");
}

#[test]
fn directions_map_from_and_to() {
    let mut model = Model::new();
    let incoming = Callable::new();
    let outgoing = Callable::new();
    {
        let c = incoming.clone();
        model.incoming_subscribe(move |_t: &TradeInfo| c.call());
        let c = outgoing.clone();
        model.outgoing_subscribe(move |_t: &TradeInfo| c.call());
    }
    model
        .try_add("@From Alice: Hi, I would like to buy your Widget in Standard")
        .unwrap();
    model
        .try_add("@To Bob: Hi, I would like to buy your Gadget in Standard")
        .unwrap();
    assert_eq!(incoming.count(), 1);
    assert_eq!(outgoing.count(), 1);
    let recs = model.records();
    assert_eq!(recs.len(), 2);
    assert_eq!(recs[0].typ, TradeType::Incoming);
    assert_eq!(recs[1].typ, TradeType::Outgoing);
}

#[test]
fn unicode_participant_name_is_the_merge_key() {
    let mut model = Model::new();
    model
        .try_add("@From 匚丹匚丹几丹: Hi, I would like to buy your Widget in Standard")
        .unwrap();
    model.try_add("@From 匚丹匚丹几丹: hello again").unwrap();
    let recs = model.records();
    assert_eq!(recs.len(), 1);
    assert_eq!(recs[0].player_name, "匚丹匚丹几丹");
    assert_eq!(recs[0].last_message, "@From 匚丹匚丹几丹: hello again");
}

#[test]
fn remove_trade_drops_by_id() {
    let mut model = Model::new();
    model
        .try_add("@From Alice: Hi, I would like to buy your Widget in Standard")
        .unwrap();
    model
        .try_add("@From Bob: Hi, I would like to buy your Gadget in Standard")
        .unwrap();
    assert_eq!(model.records().len(), 2);

    let gone = model.records()[0].id.clone();
    model.remove_trade(&gone);
    assert_eq!(model.records().len(), 1);
    assert_eq!(model.records()[0].player_name, "Bob");

    model.remove_trade(&"no such id".to_string());
    assert_eq!(model.records().len(), 1);
}

#[test]
fn generated_id_and_time_have_their_documented_shapes() {
    let mut model = Model::new();
    model
        .try_add("@From Alice: Hi, I would like to buy your Widget in Standard")
        .unwrap();
    let recs = model.records();
    assert_eq!(recs[0].id.chars().count(), 36);
    assert_eq!(recs[0].time.chars().count(), 5);
}

#[test]
fn merge_keeps_the_record_direction() {
    let mut model = Model::new();
    let incoming = Callable::new();
    let outgoing = Callable::new();
    {
        let c = incoming.clone();
        model.incoming_subscribe(move |_t: &TradeInfo| c.call());
        let c = outgoing.clone();
        model.outgoing_subscribe(move |_t: &TradeInfo| c.call());
    }
    model
        .try_add("@From Alice: Hi, I would like to buy your Widget in Standard")
        .unwrap();
    model.try_add("@To Alice: are you there?").unwrap();

    let recs = model.records();
    assert_eq!(recs.len(), 1);
    assert_eq!(recs[0].typ, TradeType::Incoming);
    assert_eq!(incoming.count(), 2);
    assert_eq!(outgoing.count(), 0);
}

#[test]
fn notifications_follow_line_order() {
    let seen: Arc<Mutex<Vec<String>>> = Arc::new(Mutex::new(Vec::new()));
    let mut model = Model::new();
    {
        let seen = seen.clone();
        model.incoming_subscribe(move |t: &TradeInfo| {
            seen.lock().unwrap().push(t.player_name.clone());
        });
    }
    model
        .try_add("@From Alice: Hi, I would like to buy your Widget in Standard")
        .unwrap();
    model
        .try_add("@From Bob: Hi, I would like to buy your Gadget in Standard")
        .unwrap();
    model.try_add("@From Alice: still there?").unwrap();

    assert_eq!(*seen.lock().unwrap(), vec!["Alice", "Bob", "Alice"]);
}
