//! Log entries and messages to measure with.
use vstd::prelude::*;
use vstd::string::StrSliceExecFns;
use vstd::utf8::{is_ascii_chars, is_ascii_chars_encode_utf8};

use crate::encoding::{fits, text_bytes};
use crate::error::AdsErrorView;
use crate::keymap::KeyMap;
use crate::message_laws::{
    all_added, items_bytes, items_writable, law_untimed_reads_back, level_byte, untimed_bytes, v1_names_fit, v1_read,
    V1Item,
};
use crate::models::{JsonScalar, JsonScalarView, LogEntry, LogEntryView, LogLevel, Lreal};
use crate::parser::{entry_outcome, zeros, MAX_MESSAGE_SIZE};
use crate::protocol::{AdsLogEntryView, AdsProtocolVersion};
use crate::text::{dec, numbered, push_dec};
use crate::time::{utc_now, Timestamp};
use crate::wire::{le16, le32, put_slice, put_u16, put_u32, put_zeros};

verus! {

broadcast use crate::wire::group_wire;

/// Log entries of different sizes.
pub struct LogEntryFixtures;

/// An entry of the PLC that all entries come from.
pub open spec fn fixture_entry(message: Seq<char>, logger: Seq<char>, level: LogLevel, now: Timestamp) -> LogEntryView {
    LogEntryView::plain("192.168.1.1:2702"@, "plc-01"@, message, logger, level, now)
}

/// An entry without arguments and context.
pub open spec fn simple_entry(now: Timestamp) -> LogEntryView {
    fixture_entry("Simple log message"@, "app.logger"@, LogLevel::Info, now)
}

/// An entry with three arguments and three context properties.
pub open spec fn typical_entry(now: Timestamp) -> LogEntryView {
    LogEntryView {
        task_name: "MotorTask"@,
        app_name: "MyApplication"@,
        project_name: "PlcProject"@,
        task_cycle_counter: 12345,
        arguments: Map::<usize, JsonScalarView>::empty().insert(0, JsonScalarView::Text("MOT-001"@)).insert(
            1,
            JsonScalarView::Lreal(Lreal(0x4055_6000_0000_0000)),
        ).insert(2, JsonScalarView::Text("2024-03-31T12:00:00Z"@)),
        context: Map::<Seq<char>, JsonScalarView>::empty().insert(
            "request_id"@,
            JsonScalarView::Text("req-12345"@),
        ).insert("trace_id"@, JsonScalarView::Text("trace-98765"@)).insert(
            "user"@,
            JsonScalarView::Text("admin"@),
        ),
        ..fixture_entry(
            "Motor {motorId} temperature is {temperature}°C at {timestamp}"@,
            "motors.controller"@,
            LogLevel::Warn,
            now,
        )
    }
}

/// An argument of the complex entry.
pub open spec fn complex_argument(i: usize) -> JsonScalarView {
    if i == 0 {
        JsonScalarView::Text("UPDATE"@)
    } else if i == 1 {
        JsonScalarView::Text("database"@)
    } else if i <= 4 {
        JsonScalarView::Text("param"@ + dec(i as nat))
    } else if i <= 7 {
        JsonScalarView::Text("value"@ + dec(i as nat))
    } else {
        JsonScalarView::Unsigned(i as u64)
    }
}

/// The first `n` arguments of the complex entry.
pub open spec fn complex_arguments(n: nat) -> Map<usize, JsonScalarView>
    decreases n,
{
    if n == 0 {
        Map::empty()
    } else {
        complex_arguments((n - 1) as nat).insert((n - 1) as usize, complex_argument((n - 1) as usize))
    }
}

/// A name of a context property of the complex entry.
pub open spec fn complex_key(i: int) -> Seq<char> {
    if i == 0 {
        "request_id"@
    } else if i == 1 {
        "trace_id"@
    } else if i == 2 {
        "span_id"@
    } else if i == 3 {
        "user_id"@
    } else if i == 4 {
        "session_id"@
    } else if i == 5 {
        "client_ip"@
    } else if i == 6 {
        "server_id"@
    } else if i == 7 {
        "region"@
    } else if i == 8 {
        "environment"@
    } else if i == 9 {
        "version"@
    } else if i == 10 {
        "request_time"@
    } else if i == 11 {
        "processing_stage"@
    } else if i == 12 {
        "retry_count"@
    } else {
        "circuit_breaker_state"@
    }
}

/// The first `n` context properties of the complex entry.
pub open spec fn complex_context(n: nat) -> Map<Seq<char>, JsonScalarView>
    decreases n,
{
    if n == 0 {
        Map::empty()
    } else {
        let i = n - 1;
        complex_context((n - 1) as nat).insert(
            complex_key(i),
            JsonScalarView::Text(complex_key(i) + "-value-"@ + dec(i as nat)),
        )
    }
}

/// An entry with ten arguments and fourteen context properties.
pub open spec fn complex_entry(now: Timestamp) -> LogEntryView {
    LogEntryView {
        task_name: "EventProcessorTask"@,
        app_name: "ComplexApp"@,
        project_name: "LargeProject"@,
        task_cycle_counter: 98765,
        task_index: 5,
        online_change_count: 3,
        arguments: complex_arguments(10),
        context: complex_context(14),
        ..fixture_entry(
            "Complex event: {action} on {resource} with params {param1}={value1}, {param2}={value2}, {param3}={value3}"@,
            "system.events"@,
            LogLevel::Error,
            now,
        )
    }
}

/// `n` numbered arguments.
pub open spec fn numbered_arguments(n: nat) -> Map<usize, JsonScalarView>
    decreases n,
{
    if n == 0 {
        Map::empty()
    } else {
        let i = (n - 1) as nat;
        numbered_arguments(i).insert(i as usize, JsonScalarView::Text("arg_"@ + dec(i)))
    }
}

/// `n` numbered context properties.
pub open spec fn numbered_context(n: nat) -> Map<Seq<char>, JsonScalarView>
    decreases n,
{
    if n == 0 {
        Map::empty()
    } else {
        let i = (n - 1) as nat;
        numbered_context(i).insert("ctx_"@ + dec(i), JsonScalarView::Text("value_"@ + dec(i)))
    }
}

/// An entry with this many arguments and context properties.
pub open spec fn counted_entry(args: usize, context_items: usize, now: Timestamp) -> LogEntryView {
    LogEntryView {
        task_name: "CustomTask"@,
        app_name: "App"@,
        project_name: "Project"@,
        arguments: numbered_arguments(args as nat),
        context: numbered_context(context_items as nat),
        ..fixture_entry(
            "Message with "@ + dec(args as nat) + " args and "@ + dec(context_items as nat) + " context items"@,
            "custom.logger"@,
            LogLevel::Debug,
            now,
        )
    }
}

fn text(s: &str) -> (r: JsonScalar)
    ensures
        r@ == JsonScalarView::Text(s@),
{
    JsonScalar::Text(String::from_str(s))
}

fn entry(message: String, logger: &str, level: LogLevel, now: Timestamp) -> (r: LogEntry)
    ensures
        r@ == fixture_entry(message@, logger@, level, now),
{
    LogEntry::new(
        String::from_str("192.168.1.1:2702"),
        String::from_str("plc-01"),
        message,
        String::from_str(logger),
        level,
        now,
    )
}

fn complex_key_text(i: usize) -> (r: String)
    ensures
        r@ == complex_key(i as int),
{
    match i {
        0 => String::from_str("request_id"),
        1 => String::from_str("trace_id"),
        2 => String::from_str("span_id"),
        3 => String::from_str("user_id"),
        4 => String::from_str("session_id"),
        5 => String::from_str("client_ip"),
        6 => String::from_str("server_id"),
        7 => String::from_str("region"),
        8 => String::from_str("environment"),
        9 => String::from_str("version"),
        10 => String::from_str("request_time"),
        11 => String::from_str("processing_stage"),
        12 => String::from_str("retry_count"),
        _ => String::from_str("circuit_breaker_state"),
    }
}

impl LogEntryFixtures {
    pub fn simple_message() -> (r: LogEntry)
        ensures
            exists|now: Timestamp| r@ == #[trigger] simple_entry(now),
    {
        let now = utc_now();
        let r = entry(String::from_str("Simple log message"), "app.logger", LogLevel::Info, now);
        assert(r@ == simple_entry(now));
        r
    }

    pub fn typical_message() -> (r: LogEntry)
        ensures
            exists|now: Timestamp| r@ == #[trigger] typical_entry(now),
    {
        let now = utc_now();
        let mut r = entry(
            String::from_str("Motor {motorId} temperature is {temperature}°C at {timestamp}"),
            "motors.controller",
            LogLevel::Warn,
            now,
        );
        r.task_name = String::from_str("MotorTask");
        r.app_name = String::from_str("MyApplication");
        r.project_name = String::from_str("PlcProject");
        r.task_cycle_counter = 12345;
        let mut arguments: KeyMap<usize, JsonScalar> = KeyMap::new();
        arguments.insert(0, text("MOT-001"));
        arguments.insert(1, JsonScalar::Lreal(Lreal(0x4055_6000_0000_0000)));
        arguments.insert(2, text("2024-03-31T12:00:00Z"));
        r.arguments = arguments;
        let mut context: KeyMap<String, JsonScalar> = KeyMap::new();
        context.insert(String::from_str("request_id"), text("req-12345"));
        context.insert(String::from_str("trace_id"), text("trace-98765"));
        context.insert(String::from_str("user"), text("admin"));
        r.context = context;
        assert(r@ == typical_entry(now));
        r
    }

    pub fn complex_message() -> (r: LogEntry)
        ensures
            exists|now: Timestamp| r@ == #[trigger] complex_entry(now),
    {
        let now = utc_now();
        let mut r = entry(
            String::from_str(
                "Complex event: {action} on {resource} with params {param1}={value1}, {param2}={value2}, {param3}={value3}",
            ),
            "system.events",
            LogLevel::Error,
            now,
        );
        r.task_name = String::from_str("EventProcessorTask");
        r.app_name = String::from_str("ComplexApp");
        r.project_name = String::from_str("LargeProject");
        r.task_cycle_counter = 98765;
        r.task_index = 5;
        r.online_change_count = 3;
        r.arguments = Self::complex_argument_map();
        r.context = Self::complex_context_map();
        assert(r@ == complex_entry(now));
        r
    }

    fn complex_argument_map() -> (r: KeyMap<usize, JsonScalar>)
        ensures
            r@ == complex_arguments(10),
    {
        let mut arguments: KeyMap<usize, JsonScalar> = KeyMap::new();
        let mut i: usize = 0;
        while i < 10
            invariant
                i <= 10,
                arguments@ == complex_arguments(i as nat),
            decreases 10 - i,
        {
            let value = if i == 0 {
                text("UPDATE")
            } else if i == 1 {
                text("database")
            } else if i <= 4 {
                JsonScalar::Text(numbered("param", i as u64))
            } else if i <= 7 {
                JsonScalar::Text(numbered("value", i as u64))
            } else {
                JsonScalar::Unsigned(i as u64)
            };
            arguments.insert(i, value);
            i = i + 1;
        }
        arguments
    }

    fn complex_context_map() -> (r: KeyMap<String, JsonScalar>)
        ensures
            r@ == complex_context(14),
    {
        let mut context: KeyMap<String, JsonScalar> = KeyMap::new();
        let mut i: usize = 0;
        while i < 14
            invariant
                i <= 14,
                context@ == complex_context(i as nat),
            decreases 14 - i,
        {
            let mut value = complex_key_text(i);
            value.append("-value-");
            push_dec(&mut value, i as u64);
            context.insert(complex_key_text(i), JsonScalar::Text(value));
            i = i + 1;
        }
        context
    }

    pub fn with_counts(args: usize, context_items: usize) -> (r: LogEntry)
        ensures
            exists|now: Timestamp| r@ == #[trigger] counted_entry(args, context_items, now),
    {
        let now = utc_now();
        let mut message = crate::text::with_number("Message with ", args as u64, " args and ");
        push_dec(&mut message, context_items as u64);
        message.append(" context items");
        let mut r = entry(message, "custom.logger", LogLevel::Debug, now);
        r.task_name = String::from_str("CustomTask");
        r.app_name = String::from_str("App");
        r.project_name = String::from_str("Project");
        let mut arguments: KeyMap<usize, JsonScalar> = KeyMap::new();
        let mut i: usize = 0;
        while i < args
            invariant
                i <= args,
                arguments@ == numbered_arguments(i as nat),
            decreases args - i,
        {
            arguments.insert(i, JsonScalar::Text(numbered("arg_", i as u64)));
            i = i + 1;
        }
        r.arguments = arguments;
        let mut context: KeyMap<String, JsonScalar> = KeyMap::new();
        let mut j: usize = 0;
        while j < context_items
            invariant
                j <= context_items,
                context@ == numbered_context(j as nat),
            decreases context_items - j,
        {
            context.insert(numbered("ctx_", j as u64), JsonScalar::Text(numbered("value_", j as u64)));
            j = j + 1;
        }
        r.context = context;
        assert(r@ == counted_entry(args, context_items, now));
        r
    }
}

/// Messages of the first format.
pub struct AdsFixtures;

/// The bytes of a message up to its arguments, with neither time set.
pub open spec fn message_head(
    message: Seq<char>,
    logger: Seq<char>,
    level: u16,
    task_index: u32,
    task_name: Seq<char>,
    task_cycle_counter: u32,
    app_name: Seq<char>,
    project_name: Seq<char>,
    online_change_count: u32,
) -> Seq<u8> {
    seq![1u8] + text_bytes(message) + text_bytes(logger) + le16(level) + zeros(16) + le32(task_index) + text_bytes(
        task_name,
    ) + le32(task_cycle_counter) + text_bytes(app_name) + text_bytes(project_name) + le32(online_change_count)
}

/// A message without arguments.
pub open spec fn minimal_message() -> Seq<u8> {
    message_head("Test message"@, "test"@, 2, 1, "Task1"@, 100, "App1"@, "Proj1"@, 0) + seq![0u8]
}

/// A message with a text and a number as arguments.
pub open spec fn typical_message() -> Seq<u8> {
    message_head(
        "Motor {m} temp is {t}"@,
        "motors"@,
        3,
        2,
        "MotorTask"@,
        5000,
        "MotorControl"@,
        "IndustrialApp"@,
        1,
    ) + seq![1u8, 0u8] + le16(12) + text_bytes("MOT-001"@) + seq![1u8, 1u8] + le16(5) + le32(0) + le32(0x4055_6000)
        + seq![0u8]
}

/// The entry that the minimal message holds; `now` stands for its times.
pub open spec fn minimal_message_entry(now: Timestamp) -> AdsLogEntryView {
    AdsLogEntryView {
        version: AdsProtocolVersion::V1,
        message: "Test message"@,
        logger: "test"@,
        level: LogLevel::Info,
        plc_timestamp: now,
        clock_timestamp: now,
        task_index: 1,
        task_name: "Task1"@,
        task_cycle_counter: 100,
        app_name: "App1"@,
        project_name: "Proj1"@,
        online_change_count: 0,
        trace_id: zeros(16),
        span_id: zeros(8),
        arguments: Map::empty(),
        context: Map::empty(),
    }
}

/// The entry that the typical message holds; `now` stands for its times.
pub open spec fn typical_message_entry(now: Timestamp) -> AdsLogEntryView {
    AdsLogEntryView {
        version: AdsProtocolVersion::V1,
        message: "Motor {m} temp is {t}"@,
        logger: "motors"@,
        level: LogLevel::Warn,
        plc_timestamp: now,
        clock_timestamp: now,
        task_index: 2,
        task_name: "MotorTask"@,
        task_cycle_counter: 5000,
        app_name: "MotorControl"@,
        project_name: "IndustrialApp"@,
        online_change_count: 1,
        trace_id: zeros(16),
        span_id: zeros(8),
        arguments: Map::<usize, JsonScalarView>::empty().insert(0, JsonScalarView::Text("MOT-001"@)).insert(
            1,
            JsonScalarView::Lreal(Lreal(0x4055_6000_0000_0000)),
        ),
        context: Map::empty(),
    }
}

spec fn typical_items() -> Seq<V1Item> {
    seq![
        V1Item::Argument { index: 0, value: JsonScalarView::Text("MOT-001"@) },
        V1Item::Argument { index: 1, value: JsonScalarView::Lreal(Lreal(0x4055_6000_0000_0000)) },
    ]
}

proof fn lemma_ascii_fits(t: Seq<char>)
    requires
        is_ascii_chars(t),
        t.len() <= 255,
    ensures
        fits(t),
        text_bytes(t).len() == t.len() + 1,
{
    is_ascii_chars_encode_utf8(t);
}

proof fn lemma_untimed_split(e: AdsLogEntryView, items: Seq<V1Item>)
    requires
        e.task_index >= 0,
    ensures
        untimed_bytes(e, items) == message_head(
            e.message,
            e.logger,
            level_byte(e.level) as u16,
            e.task_index as u32,
            e.task_name,
            e.task_cycle_counter,
            e.app_name,
            e.project_name,
            e.online_change_count,
        ) + items_bytes(items),
{
    assert(untimed_bytes(e, items) =~= message_head(
        e.message,
        e.logger,
        level_byte(e.level) as u16,
        e.task_index as u32,
        e.task_name,
        e.task_cycle_counter,
        e.app_name,
        e.project_name,
        e.online_change_count,
    ) + items_bytes(items));
}

/// `m` parses to `e`.
#[verifier::opaque]
spec fn parses_to(m: Seq<u8>, e: AdsLogEntryView, now: Timestamp) -> bool {
    entry_outcome(m, now) == Ok::<AdsLogEntryView, AdsErrorView>(e)
}

proof fn lemma_untimed_parses(e: AdsLogEntryView, items: Seq<V1Item>, now: Timestamp)
    requires
        v1_names_fit(e),
        items_writable(items, (Map::empty(), Map::empty())),
        e.plc_timestamp == now,
        e.clock_timestamp == now,
        untimed_bytes(e, items).len() <= MAX_MESSAGE_SIZE,
    ensures
        parses_to(untimed_bytes(e, items), v1_read(e, items), now),
{
    reveal(parses_to);
    law_untimed_reads_back(Seq::empty(), e, items, Seq::empty(), now);
    assert(Seq::<u8>::empty() + untimed_bytes(e, items) + Seq::<u8>::empty() =~= untimed_bytes(e, items));
}

proof fn lemma_minimal_texts()
    ensures
        text_bytes("Test message"@).len() == 13 && fits("Test message"@),
        text_bytes("test"@).len() == 5 && fits("test"@),
        text_bytes("Task1"@).len() == 6 && fits("Task1"@),
        text_bytes("App1"@).len() == 5 && fits("App1"@),
        text_bytes("Proj1"@).len() == 6 && fits("Proj1"@),
{
    reveal_strlit("Test message");
    reveal_strlit("test");
    reveal_strlit("Task1");
    reveal_strlit("App1");
    reveal_strlit("Proj1");
    lemma_ascii_fits("Test message"@);
    lemma_ascii_fits("test"@);
    lemma_ascii_fits("Task1"@);
    lemma_ascii_fits("App1"@);
    lemma_ascii_fits("Proj1"@);
}

proof fn lemma_minimal_parses(now: Timestamp)
    ensures
        parses_to(minimal_message(), minimal_message_entry(now), now),
{
    let e = minimal_message_entry(now);
    let items = Seq::<V1Item>::empty();
    lemma_minimal_texts();
    lemma_untimed_split(e, items);
    lemma_untimed_parses(e, items, now);
}

/// The minimal message is valid: it parses to its entry.
pub proof fn law_minimal_message_parses(now: Timestamp)
    ensures
        entry_outcome(minimal_message(), now) == Ok::<AdsLogEntryView, AdsErrorView>(minimal_message_entry(now)),
{
    lemma_minimal_parses(now);
    reveal(parses_to);
}

proof fn lemma_typical_texts()
    ensures
        text_bytes("Motor {m} temp is {t}"@).len() == 22 && fits("Motor {m} temp is {t}"@),
        text_bytes("motors"@).len() == 7 && fits("motors"@),
        text_bytes("MotorTask"@).len() == 10 && fits("MotorTask"@),
        text_bytes("MotorControl"@).len() == 13 && fits("MotorControl"@),
        text_bytes("IndustrialApp"@).len() == 14 && fits("IndustrialApp"@),
        text_bytes("MOT-001"@).len() == 8 && fits("MOT-001"@),
{
    reveal_strlit("Motor {m} temp is {t}");
    reveal_strlit("motors");
    reveal_strlit("MotorTask");
    reveal_strlit("MotorControl");
    reveal_strlit("IndustrialApp");
    reveal_strlit("MOT-001");
    lemma_ascii_fits("Motor {m} temp is {t}"@);
    lemma_ascii_fits("motors"@);
    lemma_ascii_fits("MotorTask"@);
    lemma_ascii_fits("MotorControl"@);
    lemma_ascii_fits("IndustrialApp"@);
    lemma_ascii_fits("MOT-001"@);
}

proof fn lemma_typical_parses(now: Timestamp)
    ensures
        parses_to(typical_message(), typical_message_entry(now), now),
{
    let e = typical_message_entry(now);
    let items = typical_items();
    lemma_typical_texts();
    lemma_typical_items();
    lemma_untimed_split(e, items);
    assert(untimed_bytes(e, items) =~= typical_message());
    lemma_untimed_parses(e, items, now);
}

/// The typical message is valid: it parses to its entry with both arguments.
pub proof fn law_typical_message_parses(now: Timestamp)
    ensures
        entry_outcome(typical_message(), now) == Ok::<AdsLogEntryView, AdsErrorView>(typical_message_entry(now)),
{
    lemma_typical_parses(now);
    reveal(parses_to);
}

proof fn lemma_typical_items()
    requires
        fits("MOT-001"@),
    ensures
        items_bytes(typical_items()) == seq![1u8, 0u8] + le16(12) + text_bytes("MOT-001"@) + seq![1u8, 1u8] + le16(5)
            + le32(0) + le32(0x4055_6000) + seq![0u8],
        items_writable(typical_items(), (Map::empty(), Map::empty())),
        all_added(typical_items(), (Map::empty(), Map::empty())) == (
            Map::<usize, JsonScalarView>::empty().insert(0, JsonScalarView::Text("MOT-001"@)).insert(
                1,
                JsonScalarView::Lreal(Lreal(0x4055_6000_0000_0000)),
            ),
            Map::<Seq<char>, JsonScalarView>::empty(),
        ),
{
    let all = typical_items();
    assert(all.skip(1).skip(1) =~= Seq::<V1Item>::empty());
    reveal_with_fuel(items_bytes, 3);
    reveal_with_fuel(items_writable, 3);
    reveal_with_fuel(all_added, 3);
    assert(all.skip(1)[0] == all[1]);
    assert(items_bytes(all) =~= seq![1u8, 0u8] + le16(12) + text_bytes("MOT-001"@) + seq![1u8, 1u8] + le16(5) + le32(
        0,
    ) + le32(0x4055_6000) + seq![0u8]);
}

impl AdsFixtures {
    fn append_string(data: &mut Vec<u8>, s: &str)
        ensures
            final(data)@ == old(data)@ + text_bytes(s@),
    {
        let bytes = s.as_bytes();
        data.push(bytes.len() as u8);
        put_slice(data, bytes);
        assert(data@ =~= old(data)@ + text_bytes(s@));
    }

    fn head(
        message: &str,
        logger: &str,
        level: u16,
        task_index: u32,
        task_name: &str,
        task_cycle_counter: u32,
        app_name: &str,
        project_name: &str,
        online_change_count: u32,
    ) -> (r: Vec<u8>)
        ensures
            r@ == message_head(
                message@,
                logger@,
                level,
                task_index,
                task_name@,
                task_cycle_counter,
                app_name@,
                project_name@,
                online_change_count,
            ),
    {
        let mut data: Vec<u8> = Vec::new();
        data.push(1);
        assert(data@ =~= seq![1u8]);
        Self::append_string(&mut data, message);
        Self::append_string(&mut data, logger);
        put_u16(&mut data, level);
        put_zeros(&mut data, 16);
        put_u32(&mut data, task_index);
        Self::append_string(&mut data, task_name);
        put_u32(&mut data, task_cycle_counter);
        Self::append_string(&mut data, app_name);
        Self::append_string(&mut data, project_name);
        put_u32(&mut data, online_change_count);
        data
    }

    fn minimal_bytes() -> (r: Vec<u8>)
        ensures
            r@ == minimal_message(),
    {
        let mut data = Self::head("Test message", "test", 2, 1, "Task1", 100, "App1", "Proj1", 0);
        let ghost before = data@;
        data.push(0);
        assert(data@ =~= before + seq![0u8]);
        data
    }

    fn typical_bytes() -> (r: Vec<u8>)
        ensures
            r@ == typical_message(),
    {
        let mut data = Self::head(
            "Motor {m} temp is {t}",
            "motors",
            3,
            2,
            "MotorTask",
            5000,
            "MotorControl",
            "IndustrialApp",
            1,
        );
        let ghost before = data@;
        data.push(1);
        data.push(0);
        assert(data@ =~= before + seq![1u8, 0u8]);
        put_u16(&mut data, 12);
        Self::append_string(&mut data, "MOT-001");
        let ghost before = data@;
        data.push(1);
        data.push(1);
        assert(data@ =~= before + seq![1u8, 1u8]);
        put_u16(&mut data, 5);
        put_u32(&mut data, 0);
        put_u32(&mut data, 0x4055_6000);
        let ghost before = data@;
        data.push(0);
        assert(data@ =~= before + seq![0u8]);
        data
    }

    /// A minimal valid message, without arguments.
    pub fn minimal_ads_message() -> (r: Vec<u8>)
        ensures
            r@ == minimal_message(),
            forall|now: Timestamp| #[trigger]
                entry_outcome(r@, now) == Ok::<AdsLogEntryView, AdsErrorView>(minimal_message_entry(now)),
    {
        let data = Self::minimal_bytes();
        proof {
            assert forall|now: Timestamp| #[trigger]
                entry_outcome(data@, now) == Ok::<AdsLogEntryView, AdsErrorView>(minimal_message_entry(now)) by {
                law_minimal_message_parses(now);
            }
        }
        data
    }

    /// A typical valid message, with a text and a number as arguments.
    pub fn typical_ads_message() -> (r: Vec<u8>)
        ensures
            r@ == typical_message(),
            forall|now: Timestamp| #[trigger]
                entry_outcome(r@, now) == Ok::<AdsLogEntryView, AdsErrorView>(typical_message_entry(now)),
    {
        let data = Self::typical_bytes();
        proof {
            assert forall|now: Timestamp| #[trigger]
                entry_outcome(data@, now) == Ok::<AdsLogEntryView, AdsErrorView>(typical_message_entry(now)) by {
                law_typical_message_parses(now);
            }
        }
        data
    }
}

} // verus!
