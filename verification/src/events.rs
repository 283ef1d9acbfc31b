//! Game events handed to Lua listeners: the events there are, the table each
//! event is given to its listeners as, listener ids, and the dispatch of an
//! event to the listeners registered for it.
use piccolo::{StashedFunction, StashedTable};
use vstd::prelude::*;

use crate::script::lua_host::{outcome_view, HostCall, LuaEntry, LuaHost, StoredValue, StoredView};

verus! {

/// A value that an event table holds under one of its keys.
pub enum EventValue {
    Text(String),
    Integer(i64),
    Boolean(bool),
}

/// The value of an event table's entry, as text or a number.
pub enum FieldView {
    Text(Seq<char>),
    Integer(int),
    Boolean(bool),
}

pub open spec fn field_view(field: (String, EventValue)) -> (Seq<char>, FieldView) {
    (
        field.0@,
        match field.1 {
            EventValue::Text(s) => FieldView::Text(s@),
            EventValue::Integer(i) => FieldView::Integer(i as int),
            EventValue::Boolean(b) => FieldView::Boolean(b),
        },
    )
}

/// The entries of an event table, in the order they are stored.
pub open spec fn fields_view(fields: Seq<(String, EventValue)>) -> Seq<(Seq<char>, FieldView)> {
    fields.map_values(|f: (String, EventValue)| field_view(f))
}

/// The names of the events that Lua plugins can listen to.
pub open spec fn event_type_names() -> Seq<Seq<char>> {
    seq!["player_join"@, "player_leave"@, "player_chat"@, "block_break"@, "block_place"@]
}

/// The names of the events that Lua plugins can listen to.
pub fn all_event_types() -> (types: Vec<&'static str>)
    ensures
        types@.map_values(|t: &str| t@) == event_type_names(),
{
    let types = vec!["player_join", "player_leave", "player_chat", "block_break", "block_place"];
    assert(types@.map_values(|t: &str| t@) =~= event_type_names());
    types
}

fn text_field(key: &str, value: &str) -> (field: (String, EventValue))
    ensures
        field_view(field) == (key@, FieldView::Text(value@)),
{
    (key.to_owned(), EventValue::Text(value.to_owned()))
}

fn integer_field(key: &str, value: i64) -> (field: (String, EventValue))
    ensures
        field_view(field) == (key@, FieldView::Integer(value as int)),
{
    (key.to_owned(), EventValue::Integer(value))
}

fn boolean_field(key: &str, value: bool) -> (field: (String, EventValue))
    ensures
        field_view(field) == (key@, FieldView::Boolean(value)),
{
    (key.to_owned(), EventValue::Boolean(value))
}

/// The table given to `player_join` listeners.
pub fn player_join_fields(player_name: &str, join_message: &str, cancelled: bool) -> (fields: Vec<(String, EventValue)>)
    ensures
        fields_view(fields@) == seq![
            ("player_name"@, FieldView::Text(player_name@)),
            ("join_message"@, FieldView::Text(join_message@)),
            ("cancelled"@, FieldView::Boolean(cancelled)),
        ],
{
    let fields = vec![
        text_field("player_name", player_name),
        text_field("join_message", join_message),
        boolean_field("cancelled", cancelled),
    ];
    assert(fields_view(fields@) =~= seq![
        ("player_name"@, FieldView::Text(player_name@)),
        ("join_message"@, FieldView::Text(join_message@)),
        ("cancelled"@, FieldView::Boolean(cancelled)),
    ]);
    fields
}

/// The table given to `player_leave` listeners.
pub fn player_leave_fields(player_name: &str, leave_message: &str, cancelled: bool) -> (fields: Vec<(String, EventValue)>)
    ensures
        fields_view(fields@) == seq![
            ("player_name"@, FieldView::Text(player_name@)),
            ("leave_message"@, FieldView::Text(leave_message@)),
            ("cancelled"@, FieldView::Boolean(cancelled)),
        ],
{
    let fields = vec![
        text_field("player_name", player_name),
        text_field("leave_message", leave_message),
        boolean_field("cancelled", cancelled),
    ];
    assert(fields_view(fields@) =~= seq![
        ("player_name"@, FieldView::Text(player_name@)),
        ("leave_message"@, FieldView::Text(leave_message@)),
        ("cancelled"@, FieldView::Boolean(cancelled)),
    ]);
    fields
}

/// The table given to `player_chat` listeners.
pub fn player_chat_fields(player_name: &str, message: &str, cancelled: bool) -> (fields: Vec<(String, EventValue)>)
    ensures
        fields_view(fields@) == seq![
            ("player_name"@, FieldView::Text(player_name@)),
            ("message"@, FieldView::Text(message@)),
            ("cancelled"@, FieldView::Boolean(cancelled)),
        ],
{
    let fields = vec![
        text_field("player_name", player_name),
        text_field("message", message),
        boolean_field("cancelled", cancelled),
    ];
    assert(fields_view(fields@) =~= seq![
        ("player_name"@, FieldView::Text(player_name@)),
        ("message"@, FieldView::Text(message@)),
        ("cancelled"@, FieldView::Boolean(cancelled)),
    ]);
    fields
}

/// The table given to `block_break` listeners; the player's name is empty
/// where no player broke the block.
pub fn block_break_fields(
    player_name: Option<&str>,
    block: &str,
    x: i32,
    y: i32,
    z: i32,
    exp: u32,
    should_drop: bool,
    cancelled: bool,
) -> (fields: Vec<(String, EventValue)>)
    ensures
        fields_view(fields@) == seq![
            ("player_name"@, FieldView::Text(
                match player_name {
                    Some(n) => n@,
                    None => Seq::<char>::empty(),
                },
            )),
            ("block"@, FieldView::Text(block@)),
            ("x"@, FieldView::Integer(x as int)),
            ("y"@, FieldView::Integer(y as int)),
            ("z"@, FieldView::Integer(z as int)),
            ("exp"@, FieldView::Integer(exp as int)),
            ("should_drop"@, FieldView::Boolean(should_drop)),
            ("cancelled"@, FieldView::Boolean(cancelled)),
        ],
{
    let name = match player_name {
        Some(n) => n,
        None => "",
    };
    proof {
        reveal_strlit("");
        assert(name@ =~= match player_name {
            Some(n) => n@,
            None => Seq::<char>::empty(),
        });
    }
    let fields = vec![
        text_field("player_name", name),
        text_field("block", block),
        integer_field("x", x as i64),
        integer_field("y", y as i64),
        integer_field("z", z as i64),
        integer_field("exp", exp as i64),
        boolean_field("should_drop", should_drop),
        boolean_field("cancelled", cancelled),
    ];
    assert(fields_view(fields@) =~= seq![
        ("player_name"@, FieldView::Text(
            match player_name {
                Some(n) => n@,
                None => Seq::<char>::empty(),
            },
        )),
        ("block"@, FieldView::Text(block@)),
        ("x"@, FieldView::Integer(x as int)),
        ("y"@, FieldView::Integer(y as int)),
        ("z"@, FieldView::Integer(z as int)),
        ("exp"@, FieldView::Integer(exp as int)),
        ("should_drop"@, FieldView::Boolean(should_drop)),
        ("cancelled"@, FieldView::Boolean(cancelled)),
    ]);
    fields
}

/// The table given to `block_place` listeners.
pub fn block_place_fields(
    player_name: &str,
    block_placed: &str,
    x: i32,
    y: i32,
    z: i32,
    can_build: bool,
    cancelled: bool,
) -> (fields: Vec<(String, EventValue)>)
    ensures
        fields_view(fields@) == seq![
            ("player_name"@, FieldView::Text(player_name@)),
            ("block_placed"@, FieldView::Text(block_placed@)),
            ("x"@, FieldView::Integer(x as int)),
            ("y"@, FieldView::Integer(y as int)),
            ("z"@, FieldView::Integer(z as int)),
            ("can_build"@, FieldView::Boolean(can_build)),
            ("cancelled"@, FieldView::Boolean(cancelled)),
        ],
{
    let fields = vec![
        text_field("player_name", player_name),
        text_field("block_placed", block_placed),
        integer_field("x", x as i64),
        integer_field("y", y as i64),
        integer_field("z", z as i64),
        boolean_field("can_build", can_build),
        boolean_field("cancelled", cancelled),
    ];
    assert(fields_view(fields@) =~= seq![
        ("player_name"@, FieldView::Text(player_name@)),
        ("block_placed"@, FieldView::Text(block_placed@)),
        ("x"@, FieldView::Integer(x as int)),
        ("y"@, FieldView::Integer(y as int)),
        ("z"@, FieldView::Integer(z as int)),
        ("can_build"@, FieldView::Boolean(can_build)),
        ("cancelled"@, FieldView::Boolean(cancelled)),
    ]);
    fields
}

/// The decimal digit `d`.
pub open spec fn digit_char(d: int) -> char {
    if d == 0 {
        '0'
    } else if d == 1 {
        '1'
    } else if d == 2 {
        '2'
    } else if d == 3 {
        '3'
    } else if d == 4 {
        '4'
    } else if d == 5 {
        '5'
    } else if d == 6 {
        '6'
    } else if d == 7 {
        '7'
    } else if d == 8 {
        '8'
    } else {
        '9'
    }
}

/// The decimal numeral of `n`, without leading zeros.
pub open spec fn decimal(n: nat) -> Seq<char>
    decreases n,
{
    if n < 10 {
        seq![digit_char(n as int)]
    } else {
        decimal(n / 10).push(digit_char((n % 10) as int))
    }
}

fn digit_text(d: u128) -> (text: &'static str)
    requires
        d < 10,
    ensures
        text@ == seq![digit_char(d as int)],
{
    proof {
        reveal_strlit("0");
        reveal_strlit("1");
        reveal_strlit("2");
        reveal_strlit("3");
        reveal_strlit("4");
        reveal_strlit("5");
        reveal_strlit("6");
        reveal_strlit("7");
        reveal_strlit("8");
        reveal_strlit("9");
    }
    if d == 0 {
        "0"
    } else if d == 1 {
        "1"
    } else if d == 2 {
        "2"
    } else if d == 3 {
        "3"
    } else if d == 4 {
        "4"
    } else if d == 5 {
        "5"
    } else if d == 6 {
        "6"
    } else if d == 7 {
        "7"
    } else if d == 8 {
        "8"
    } else {
        "9"
    }
}

/// The digits of `n` above its last one: none for a single digit.
pub open spec fn leading_digits(n: nat) -> Seq<char> {
    if n == 0 {
        Seq::<char>::empty()
    } else {
        decimal(n)
    }
}

/// The decimal numeral of `n`, as `u128`'s `Display` writes it.
pub fn decimal_text(n: u128) -> (text: String)
    ensures
        text@ == decimal(n as nat),
{
    let mut rest: u128 = n / 10;
    let mut text = digit_text(n % 10).to_owned();
    assert(decimal(n as nat) == leading_digits(rest as nat) + text@);
    while rest > 0
        invariant
            decimal(n as nat) == leading_digits(rest as nat) + text@,
        decreases rest,
    {
        let d = rest % 10;
        let mut longer = digit_text(d).to_owned();
        longer.append(text.as_str());
        proof {
            let r = rest as nat;
            assert(decimal(r) == leading_digits(r / 10) + seq![digit_char((r % 10) as int)]);
            assert(leading_digits(r) + text@ =~= leading_digits(r / 10) + longer@);
        }
        text = longer;
        rest = rest / 10;
    }
    text
}

/// The id under which a listener registered at `millis` milliseconds since the
/// Unix epoch for `event_type` is kept: the event's name, `_` and the time.
pub fn listener_id(event_type: &str, millis: u128) -> (id: String)
    ensures
        id@ == event_type@ + "_"@ + decimal(millis as nat),
{
    let mut id = event_type.to_owned();
    id.append("_");
    let digits = decimal_text(millis);
    id.append(digits.as_str());
    id
}

/// The calls that looking up the listeners of `event_type` makes: the global
/// `pumpkin` is read; where it holds a table `p`, `p.events` is read; where
/// that holds a table, its entry under `event_type` is read.
pub open spec fn lookup_log_by(
    event_type: Seq<char>,
    global: Option<StashedTable>,
    events: LuaEntry,
    listeners: LuaEntry,
) -> Seq<HostCall> {
    seq![HostCall::Global("pumpkin"@, global)] + match global {
        Some(p) => seq![HostCall::Read(p, "events"@, events)] + match events {
            LuaEntry::Table(t) => seq![HostCall::Read(t, event_type, listeners)],
            _ => Seq::empty(),
        },
        None => Seq::empty(),
    }
}

/// `table` is the listeners table found by those reads: the table they end
/// on where each holds a table (else a fresh one).
pub open spec fn listeners_found(
    global: Option<StashedTable>,
    events: LuaEntry,
    listeners: LuaEntry,
    table: StashedTable,
) -> bool {
    match (global, events, listeners) {
        (Some(_), LuaEntry::Table(_), LuaEntry::Table(t)) => table == t,
        _ => true,
    }
}

/// The table of listeners of `event_type`: the interpreter's
/// `pumpkin.events[event_type]`, or a fresh empty table where there is none.
fn listeners_table(host: &mut LuaHost, event_type: &str) -> (table: StashedTable)
    ensures
        exists|global: Option<StashedTable>, events: LuaEntry, listeners: LuaEntry|
            final(host).calls() == old(host).calls() + #[trigger] lookup_log_by(
                event_type@,
                global,
                events,
                listeners,
            ) && listeners_found(global, events, listeners, table),
        final(host).global_sets() == old(host).global_sets(),
{
    let ghost start = host.calls();
    let global = host.global("pumpkin");
    match global {
        Some(pumpkin) => {
            let events = host.read(&pumpkin, "events");
            match events {
                LuaEntry::Table(ev) => {
                    let listeners = host.read(&ev, event_type);
                    let ghost gl = listeners;
                    assert(host.calls() =~= start + lookup_log_by(event_type@, global, LuaEntry::Table(ev), gl));
                    match listeners {
                        LuaEntry::Table(t) => return t,
                        _ => {},
                    }
                    let t = host.new_table();
                    assert(listeners_found(global, LuaEntry::Table(ev), gl, t));
                    t
                },
                _ => {
                    let ghost ge = events;
                    assert(host.calls() =~= start + lookup_log_by(event_type@, global, ge, LuaEntry::Other));
                    let t = host.new_table();
                    assert(listeners_found(global, ge, LuaEntry::Other, t));
                    t
                },
            }
        },
        None => {
            assert(host.calls() =~= start + lookup_log_by(event_type@, global, LuaEntry::Other, LuaEntry::Other));
            host.new_table()
        },
    }
}

/// The functions among `entries`, in order.
pub open spec fn functions_of(entries: Seq<Option<StashedFunction>>) -> Seq<StashedFunction>
    decreases entries.len(),
{
    if entries.len() == 0 {
        Seq::empty()
    } else {
        let rest = functions_of(entries.drop_first());
        match entries[0] {
            Some(f) => seq![f] + rest,
            None => rest,
        }
    }
}

/// The errors among `outcomes`, in order.
pub open spec fn errors_of(outcomes: Seq<Result<(), String>>) -> Seq<Seq<char>>
    decreases outcomes.len(),
{
    if outcomes.len() == 0 {
        Seq::empty()
    } else {
        let before = errors_of(outcomes.drop_last());
        match outcomes.last() {
            Err(e) => before.push(e@),
            Ok(()) => before,
        }
    }
}

/// The listeners among the entries of a listener table: the functions, in
/// order; an entry that holds no function is passed over.
pub fn listener_functions(entries: Vec<Option<StashedFunction>>) -> (listeners: Vec<StashedFunction>)
    ensures
        listeners@ == functions_of(entries@),
{
    let ghost all = entries@;
    let mut entries = entries;
    let mut listeners: Vec<StashedFunction> = Vec::new();
    while entries.len() > 0
        invariant
            listeners@ + functions_of(entries@) == functions_of(all),
        decreases entries.len(),
    {
        let ghost before = entries@;
        let entry = entries.remove(0);
        assert(entries@ =~= before.drop_first());
        match entry {
            Some(f) => {
                assert(listeners@.push(f) + functions_of(entries@) =~= listeners@ + functions_of(before));
                listeners.push(f);
            },
            None => {},
        }
    }
    assert(listeners@ + functions_of(entries@) =~= listeners@);
    listeners
}

/// The errors of the listeners that failed, in the order they ran, from the
/// outcome of each listener.
pub fn listener_errors(outcomes: &Vec<Result<(), String>>) -> (errors: Vec<String>)
    ensures
        errors@.map_values(|e: String| e@) == errors_of(outcomes@),
{
    let mut errors: Vec<String> = Vec::new();
    let mut i: usize = 0;
    while i < outcomes.len()
        invariant
            i <= outcomes.len(),
            errors@.map_values(|e: String| e@) == errors_of(outcomes@.take(i as int)),
        decreases outcomes.len() - i,
    {
        assert(outcomes@.take(i as int + 1).drop_last() =~= outcomes@.take(i as int));
        match &outcomes[i] {
            Ok(()) => {},
            Err(e) => {
                let ghost shown = errors@.map_values(|e: String| e@);
                errors.push(e.clone());
                assert(errors@.map_values(|e: String| e@) =~= shown.push(e@));
            },
        }
        i = i + 1;
    }
    assert(outcomes@.take(outcomes.len() as int) =~= outcomes@);
    errors
}

/// The calls that store the event `fields` in `table`, one after the other.
pub open spec fn field_stores(table: StashedTable, fields: Seq<(String, EventValue)>) -> Seq<HostCall> {
    Seq::new(fields.len(), |i: int| HostCall::Stored(table, fields[i].0@, StoredView::Field(fields[i].1)))
}

/// The calls of each of `listeners` in turn with `table` as its argument,
/// with the outcomes `outcomes`.
pub open spec fn listener_calls(
    listeners: Seq<StashedFunction>,
    table: StashedTable,
    outcomes: Seq<Result<(), String>>,
) -> Seq<HostCall> {
    Seq::new(
        listeners.len(),
        |i: int| HostCall::Called(listeners[i], Some(table), outcome_view(outcomes[i])),
    )
}

/// The calls that a dispatch of `fields` makes (see `dispatch_event`).
pub open spec fn dispatch_log_by(
    event_type: Seq<char>,
    global: Option<StashedTable>,
    events: LuaEntry,
    found: LuaEntry,
    listeners_table: StashedTable,
    event: StashedTable,
    entries: Seq<Option<StashedFunction>>,
    fields: Seq<(String, EventValue)>,
    listeners: Seq<StashedFunction>,
    outcomes: Seq<Result<(), String>>,
) -> Seq<HostCall> {
    lookup_log_by(event_type, global, events, found) + field_stores(event, fields) + seq![
        HostCall::Listed(listeners_table, entries),
    ] + listener_calls(listeners, event, outcomes)
}

/// What a dispatch did: the listeners it called, in order, the outcome of
/// each call, and the errors of those that failed.
pub struct Dispatch {
    pub listeners: Vec<StashedFunction>,
    pub outcomes: Vec<Result<(), String>>,
    pub errors: Vec<String>,
}

/// Gives the event `fields` to every function registered as a listener of
/// `event_type`: looks up the listeners table, builds one table `event` of
/// the fields, lists the listeners table's functions, and calls each in turn
/// with `event`; a listener that fails does not stop the others. The result
/// lists the listeners called, the outcome of each, and the errors of those
/// that failed, in order. Which functions the interpreter holds, and which
/// of them fail, is the interpreter's.
pub fn dispatch_event(host: &mut LuaHost, event_type: &str, fields: &Vec<(String, EventValue)>) -> (d: Dispatch)
    ensures
        d.outcomes.len() == d.listeners.len(),
        final(host).global_sets() == old(host).global_sets(),
        d.errors@.map_values(|e: String| e@) == errors_of(d.outcomes@),
        exists|
            global: Option<StashedTable>,
            events: LuaEntry,
            found: LuaEntry,
            listeners_table: StashedTable,
            event: StashedTable,
            entries: Seq<Option<StashedFunction>>,
        |
            {
                &&& listeners_found(global, events, found, listeners_table)
                &&& d.listeners@ == functions_of(entries)
                &&& final(host).calls() == old(host).calls() + #[trigger] dispatch_log_by(
                    event_type@,
                    global,
                    events,
                    found,
                    listeners_table,
                    event,
                    entries,
                    fields@,
                    d.listeners@,
                    d.outcomes@,
                )
            },
{
    let ghost start = host.calls();
    let listeners_table = listeners_table(host, event_type);
    let ghost (g, ev, lt) = choose|g: Option<StashedTable>, ev: LuaEntry, lt: LuaEntry|
        host.calls() == start + #[trigger] lookup_log_by(event_type@, g, ev, lt) && listeners_found(
            g,
            ev,
            lt,
            listeners_table,
        );
    let ghost looked = host.calls();
    let table = host.new_table();
    let mut i: usize = 0;
    while i < fields.len()
        invariant
            i <= fields.len(),
            host.calls() == looked + field_stores(table, fields@.take(i as int)),
            host.global_sets() == old(host).global_sets(),
        decreases fields.len() - i,
    {
        host.store(&table, fields[i].0.as_str(), StoredValue::Field(&fields[i].1));
        assert(field_stores(table, fields@.take(i as int + 1)) =~= field_stores(table, fields@.take(i as int)).push(
            HostCall::Stored(table, fields@[i as int].0@, StoredView::Field(fields@[i as int].1)),
        ));
        i = i + 1;
    }
    assert(fields@.take(fields.len() as int) =~= fields@);
    let entries = host.list_functions(&listeners_table);
    let ghost entries_view = entries@;
    let ghost listed = host.calls();
    let listeners = listener_functions(entries);
    let mut outcomes: Vec<Result<(), String>> = Vec::new();
    let mut k: usize = 0;
    while k < listeners.len()
        invariant
            k <= listeners.len(),
            outcomes.len() == k,
            host.calls() == listed + listener_calls(listeners@.take(k as int), table, outcomes@),
            host.global_sets() == old(host).global_sets(),
        decreases listeners.len() - k,
    {
        let outcome = host.call(&listeners[k], Some(&table));
        let ghost before = outcomes@;
        outcomes.push(outcome);
        assert(listener_calls(listeners@.take(k as int + 1), table, outcomes@) =~= listener_calls(
            listeners@.take(k as int),
            table,
            before,
        ).push(HostCall::Called(listeners@[k as int], Some(table), outcome_view(outcome))));
        k = k + 1;
    }
    assert(listeners@.take(listeners.len() as int) =~= listeners@);
    let ghost outcomes_view = outcomes@;
    let errors = listener_errors(&outcomes);
    assert(host.calls() =~= start + dispatch_log_by(
        event_type@, g, ev, lt, listeners_table, table, entries_view, fields@, listeners@, outcomes@,
    ));
    let d = Dispatch { listeners, outcomes, errors };
    assert(listeners_found(g, ev, lt, listeners_table));
    assert(d.listeners@ == functions_of(entries_view));
    assert(host.calls() == start + dispatch_log_by(
        event_type@, g, ev, lt, listeners_table, table, entries_view, fields@, d.listeners@, d.outcomes@,
    ));
    d
}

/// A dispatch stores every event field, with its value, in the one event
/// table that it hands to each listener, stores into no other table, and
/// calls every listener it found, in order, with that table.
pub proof fn law_dispatch_hands_every_field(
    event_type: Seq<char>,
    global: Option<StashedTable>,
    events: LuaEntry,
    found: LuaEntry,
    listeners_table: StashedTable,
    event: StashedTable,
    entries: Seq<Option<StashedFunction>>,
    fields: Seq<(String, EventValue)>,
    listeners: Seq<StashedFunction>,
    outcomes: Seq<Result<(), String>>,
)
    requires
        outcomes.len() == listeners.len(),
    ensures
        ({
            let log = dispatch_log_by(
                event_type,
                global,
                events,
                found,
                listeners_table,
                event,
                entries,
                fields,
                listeners,
                outcomes,
            );
            &&& forall|i: int|
                #![trigger fields[i]]
                0 <= i < fields.len() ==> exists|j: int|
                    0 <= j < log.len() && #[trigger] log[j] == HostCall::Stored(
                        event,
                        fields[i].0@,
                        StoredView::Field(fields[i].1),
                    )
            &&& forall|j: int|
                0 <= j < log.len() ==> (#[trigger] log[j] matches HostCall::Stored(t, _, _) ==> t == event)
            &&& forall|k: int|
                #![trigger listeners[k]]
                0 <= k < listeners.len() ==> exists|j: int|
                    0 <= j < log.len() && #[trigger] log[j] == HostCall::Called(
                        listeners[k],
                        Some(event),
                        outcome_view(outcomes[k]),
                    )
        }),
{
    let lookup = lookup_log_by(event_type, global, events, found);
    let stores = field_stores(event, fields);
    let calls = listener_calls(listeners, event, outcomes);
    let log = dispatch_log_by(
        event_type,
        global,
        events,
        found,
        listeners_table,
        event,
        entries,
        fields,
        listeners,
        outcomes,
    );
    let base = lookup.len() + stores.len() + 1;
    assert(log =~= lookup + stores + seq![HostCall::Listed(listeners_table, entries)] + calls);
    assert forall|i: int| #![trigger fields[i]] 0 <= i < fields.len() implies exists|j: int|
        0 <= j < log.len() && #[trigger] log[j] == HostCall::Stored(
            event,
            fields[i].0@,
            StoredView::Field(fields[i].1),
        ) by {
        assert(log[lookup.len() + i] == stores[i]);
    }
    assert forall|k: int| #![trigger listeners[k]] 0 <= k < listeners.len() implies exists|j: int|
        0 <= j < log.len() && #[trigger] log[j] == HostCall::Called(
            listeners[k],
            Some(event),
            outcome_view(outcomes[k]),
        ) by {
        assert(log[base + k] == calls[k]);
    }
    assert forall|j: int| 0 <= j < log.len() implies (#[trigger] log[j] matches HostCall::Stored(t, _, _) ==> t
        == event) by {
        if j < lookup.len() {
            assert(log[j] == lookup[j]);
            match global {
                Some(p) => match events {
                    LuaEntry::Table(ev) => {
                        assert(lookup =~= seq![
                            HostCall::Global("pumpkin"@, global),
                            HostCall::Read(p, "events"@, events),
                            HostCall::Read(ev, event_type, found),
                        ]);
                    },
                    _ => {
                        assert(lookup =~= seq![HostCall::Global("pumpkin"@, global), HostCall::Read(p, "events"@, events)]);
                    },
                },
                None => {
                    assert(lookup =~= seq![HostCall::Global("pumpkin"@, global)]);
                },
            }
        } else if j < lookup.len() + stores.len() {
            assert(log[j] == stores[j - lookup.len()]);
        } else if j == base - 1 {
        } else {
            assert(log[j] == calls[j - base]);
        }
    }
}

/// A dispatch reports no more errors than listeners ran.
pub proof fn law_errors_at_most_outcomes(outcomes: Seq<Result<(), String>>)
    ensures
        errors_of(outcomes).len() <= outcomes.len(),
    decreases outcomes.len(),
{
    if outcomes.len() > 0 {
        law_errors_at_most_outcomes(outcomes.drop_last());
    }
}

proof fn lemma_digit_injective(a: int, b: int)
    requires
        0 <= a < 10,
        0 <= b < 10,
        digit_char(a) == digit_char(b),
    ensures
        a == b,
{
}

proof fn lemma_decimal_len(n: nat)
    ensures
        decimal(n).len() >= 1,
        n >= 10 ==> decimal(n).len() >= 2,
    decreases n,
{
    if n >= 10 {
        lemma_decimal_len(n / 10);
    }
}

/// A decimal numeral is a non-empty string of the digits `0` to `9`.
pub proof fn law_decimal_digits(n: nat)
    ensures
        decimal(n).len() >= 1,
        forall|i: int| 0 <= i < decimal(n).len() ==> '0' <= #[trigger] decimal(n)[i] <= '9',
    decreases n,
{
    lemma_decimal_len(n);
    if n >= 10 {
        law_decimal_digits(n / 10);
    }
}

/// Different numbers have different numerals.
pub proof fn law_decimal_injective(a: nat, b: nat)
    requires
        decimal(a) == decimal(b),
    ensures
        a == b,
    decreases a,
{
    lemma_decimal_len(a);
    lemma_decimal_len(b);
    if a >= 10 && b >= 10 {
        assert(decimal(a).drop_last() == decimal(b).drop_last());
        assert(decimal(a).drop_last() =~= decimal(a / 10));
        assert(decimal(b).drop_last() =~= decimal(b / 10));
        law_decimal_injective(a / 10, b / 10);
        assert(decimal(a).last() == digit_char((a % 10) as int));
        assert(decimal(b).last() == digit_char((b % 10) as int));
        lemma_digit_injective((a % 10) as int, (b % 10) as int);
    } else if a < 10 && b < 10 {
        assert(decimal(a)[0] == digit_char(a as int));
        assert(decimal(b)[0] == digit_char(b as int));
        lemma_digit_injective(a as int, b as int);
    }
}

/// Listeners of one event registered at different times get different ids.
pub proof fn law_listener_ids_differ(event_type: Seq<char>, a: nat, b: nat)
    requires
        a != b,
    ensures
        event_type + "_"@ + decimal(a) != event_type + "_"@ + decimal(b),
{
    let prefix = event_type + "_"@;
    if prefix + decimal(a) == prefix + decimal(b) {
        assert((prefix + decimal(a)).skip(prefix.len() as int) =~= decimal(a));
        assert((prefix + decimal(b)).skip(prefix.len() as int) =~= decimal(b));
        law_decimal_injective(a, b);
    }
}

} // verus!
