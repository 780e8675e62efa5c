//! The computer tool: what is typed and clicked, and how a picture of the screen is written.
//!
//! The events are sent, and the screen is read, outside the library.

use vstd::prelude::*;

use crate::base64::{base64_encode, encoded};
use crate::coding::arguments::{argument_flag, flag_argument};
use crate::deep::group_deep;
use crate::json::{group_json, num, signed_num, Json, JsonModel, Members};
use crate::json_text::pretty_json;
use crate::number::{decimal, number_text, signed_decimal, signed_text};
use crate::text::{concat2, concat3, concat5, lowercase, same, to_lowercase};
use crate::tools::websearch::{number_argument, number_or};

verus! {

broadcast use {group_deep, group_json};

// ---- pictures ----

/// A number of 32 bits, the lowest byte first.
pub open spec fn le32(n: u32) -> Seq<u8> {
    seq![
        (n % 256) as u8,
        (n / 256 % 256) as u8,
        (n / 65536 % 256) as u8,
        (n / 16777216) as u8,
    ]
}

/// How many bytes a line of a picture takes: three for each pixel, filled up to a multiple of
/// four.
pub open spec fn line_bytes(width: nat) -> nat {
    (width * 3 + 3) / 4 * 4
}

/// How many bytes a line of a picture takes.
pub fn bmp_stride(width: u32) -> (r: u64)
    ensures
        r == line_bytes(width as nat),
{
    (width as u64 * 3 + 3) / 4 * 4
}

/// A size as it is written: as much of it as fits in 32 bits.
pub open spec fn size_field(size: nat) -> u32 {
    (size % 4294967296) as u32
}

/// A picture of the screen as the bytes of a BMP file. Its lines run from top to bottom.
pub open spec fn bmp_bytes(width: u32, height: u32, pixels: Seq<u8>) -> Seq<u8> {
    seq![66u8, 77u8] + le32(size_field(54 + pixels.len())) + le32(0) + le32(54) + le32(40) + le32(
        width,
    ) + le32((4294967296 - height) as u32) + seq![1u8, 0u8, 24u8, 0u8] + le32(0) + le32(
        size_field(pixels.len()),
    ) + le32(0) + le32(0) + le32(0) + le32(0) + pixels
}

fn push_le32(out: &mut Vec<u8>, n: u32)
    ensures
        final(out)@ == old(out)@ + le32(n),
{
    let ghost before = out@;
    out.push((n % 256) as u8);
    out.push((n / 256 % 256) as u8);
    out.push((n / 65536 % 256) as u8);
    out.push((n / 16777216) as u8);
    proof {
        assert(out@ =~= before + le32(n));
    }
}

/// A picture of the screen as the bytes of a BMP file.
pub fn encode_bmp(width: u32, height: u32, pixels: &[u8]) -> (r: Vec<u8>)
    requires
        0 < height,
    ensures
        r@ == bmp_bytes(width, height, pixels@),
{
    let n = pixels.len();
    let mut bmp: Vec<u8> = Vec::new();
    bmp.push(66);
    bmp.push(77);
    proof {
        assert(bmp@ =~= seq![66u8, 77u8]);
    }
    push_le32(&mut bmp, ((54 + n as u128) % 4294967296) as u32);
    push_le32(&mut bmp, 0);
    push_le32(&mut bmp, 54);
    push_le32(&mut bmp, 40);
    push_le32(&mut bmp, width);
    push_le32(&mut bmp, (4294967296u64 - height as u64) as u32);
    let ghost before = bmp@;
    bmp.push(1);
    bmp.push(0);
    bmp.push(24);
    bmp.push(0);
    proof {
        assert(bmp@ =~= before + seq![1u8, 0u8, 24u8, 0u8]);
    }
    push_le32(&mut bmp, 0);
    push_le32(&mut bmp, (n as u128 % 4294967296) as u32);
    push_le32(&mut bmp, 0);
    push_le32(&mut bmp, 0);
    push_le32(&mut bmp, 0);
    push_le32(&mut bmp, 0);
    let ghost head = bmp@;
    let mut i: usize = 0;
    proof {
        assert(head + pixels@.take(0) =~= head);
    }
    while i < n
        invariant
            n == pixels@.len(),
            i <= n,
            bmp@ == head + pixels@.take(i as int),
        decreases n - i,
    {
        bmp.push(pixels[i]);
        proof {
            assert(head + pixels@.take(i + 1) =~= (head + pixels@.take(i as int)).push(
                pixels@[i as int],
            ));
        }
        i += 1;
    }
    proof {
        assert(pixels@.take(n as int) =~= pixels@);
    }
    bmp
}

/// The head of a picture takes 54 bytes, and its pixels follow.
pub proof fn law_pixels_follow_the_head(width: u32, height: u32, pixels: Seq<u8>)
    ensures
        bmp_bytes(width, height, pixels).len() == 54 + pixels.len(),
        bmp_bytes(width, height, pixels).skip(54) == pixels,
{
    assert(bmp_bytes(width, height, pixels).skip(54) =~= pixels);
}

/// Where the cursor is.
pub open spec fn cursor_json(cursor: Option<(i32, i32)>) -> JsonModel {
    match cursor {
        Some((x, y)) => JsonModel::Object(
            seq![("x"@, signed_num(x as int)), ("y"@, signed_num(y as int))],
        ),
        None => JsonModel::Null,
    }
}

/// What is shown of a picture of the screen.
pub open spec fn snapshot_json(
    width: u32,
    height: u32,
    cursor: Option<(i32, i32)>,
    path: Seq<char>,
    image: Option<Seq<u8>>,
) -> JsonModel {
    JsonModel::Object(
        seq![
            ("screen_width"@, num(width as nat)),
            ("screen_height"@, num(height as nat)),
            ("cursor"@, cursor_json(cursor)),
            ("screenshot_available"@, JsonModel::Bool(true)),
            ("path"@, JsonModel::Str(path)),
            ("mime_type"@, JsonModel::Str("image/bmp"@)),
            (
                "image_base64"@,
                match image {
                    Some(bytes) => JsonModel::Str(encoded(bytes)),
                    None => JsonModel::Null,
                },
            ),
        ],
    )
}

/// What is shown of a picture of the screen. The picture itself is shown where the call asks for
/// it.
pub fn snapshot_report(
    arguments: &Json,
    width: u32,
    height: u32,
    cursor: Option<(i32, i32)>,
    path: &str,
    bmp: &[u8],
) -> (r: String)
    ensures
        r@ == pretty_json(
            snapshot_json(
                width,
                height,
                cursor,
                path@,
                if argument_flag(arguments.deep_view(), "include_base64"@, false) {
                    Some(bmp@)
                } else {
                    None
                },
            ),
        ),
{
    let place = match cursor {
        Some((x, y)) => {
            let members = Members::new().with("x", Json::signed(x as i64)).with(
                "y",
                Json::signed(y as i64),
            );
            proof {
                assert(members.model() =~= cursor_json(cursor)->Object_0);
            }
            members.object()
        },
        None => Json::Null,
    };
    let wanted_image = flag_argument(arguments, "include_base64", false);
    let image = if wanted_image {
        Json::string(&base64_encode(bmp))
    } else {
        Json::Null
    };
    let members = Members::new().with("screen_width", Json::number(width as u64)).with(
        "screen_height",
        Json::number(height as u64),
    ).with("cursor", place).with("screenshot_available", Json::Bool(true)).with(
        "path",
        Json::string(path),
    ).with("mime_type", Json::string("image/bmp")).with("image_base64", image);
    proof {
        assert(members.model() =~= snapshot_json(
            width,
            height,
            cursor,
            path@,
            if wanted_image {
                Some(bmp@)
            } else {
                None
            },
        )->Object_0);
    }
    members.object().to_pretty_text()
}

// ---- keys ----

/// The code of a key by its name in lower case. A name of one byte is the key of that byte.
pub open spec fn key_code(name: Seq<char>) -> Option<u8> {
    if name == "enter"@ {
        Some(0x0Du8)
    } else if name == "escape"@ || name == "esc"@ {
        Some(0x1Bu8)
    } else if name == "tab"@ {
        Some(0x09u8)
    } else if name == "backspace"@ {
        Some(0x08u8)
    } else if name == "space"@ {
        Some(0x20u8)
    } else if name == "left"@ {
        Some(0x25u8)
    } else if name == "up"@ {
        Some(0x26u8)
    } else if name == "right"@ {
        Some(0x27u8)
    } else if name == "down"@ {
        Some(0x28u8)
    } else if name == "home"@ {
        Some(0x24u8)
    } else if name == "end"@ {
        Some(0x23u8)
    } else if name == "delete"@ {
        Some(0x2Eu8)
    } else if name == "f1"@ {
        Some(0x70u8)
    } else if name == "f2"@ {
        Some(0x71u8)
    } else if name == "f3"@ {
        Some(0x72u8)
    } else if name == "f4"@ {
        Some(0x73u8)
    } else if name == "f5"@ {
        Some(0x74u8)
    } else if name == "f6"@ {
        Some(0x75u8)
    } else if name == "f7"@ {
        Some(0x76u8)
    } else if name == "f8"@ {
        Some(0x77u8)
    } else if name == "f9"@ {
        Some(0x78u8)
    } else if name == "f10"@ {
        Some(0x79u8)
    } else if name == "f11"@ {
        Some(0x7Au8)
    } else if name == "f12"@ {
        Some(0x7Bu8)
    } else if vstd::utf8::encode_utf8(name).len() == 1 {
        Some(vstd::utf8::encode_utf8(name)[0])
    } else {
        None
    }
}

/// The code of a key by its name in lower case.
pub fn key_code_of_lower(name: &str) -> (r: Option<u8>)
    ensures
        r == key_code(name@),
{
    if same(name, "enter") {
        Some(0x0D)
    } else if same(name, "escape") || same(name, "esc") {
        Some(0x1B)
    } else if same(name, "tab") {
        Some(0x09)
    } else if same(name, "backspace") {
        Some(0x08)
    } else if same(name, "space") {
        Some(0x20)
    } else if same(name, "left") {
        Some(0x25)
    } else if same(name, "up") {
        Some(0x26)
    } else if same(name, "right") {
        Some(0x27)
    } else if same(name, "down") {
        Some(0x28)
    } else if same(name, "home") {
        Some(0x24)
    } else if same(name, "end") {
        Some(0x23)
    } else if same(name, "delete") {
        Some(0x2E)
    } else if same(name, "f1") {
        Some(0x70)
    } else if same(name, "f2") {
        Some(0x71)
    } else if same(name, "f3") {
        Some(0x72)
    } else if same(name, "f4") {
        Some(0x73)
    } else if same(name, "f5") {
        Some(0x74)
    } else if same(name, "f6") {
        Some(0x75)
    } else if same(name, "f7") {
        Some(0x76)
    } else if same(name, "f8") {
        Some(0x77)
    } else if same(name, "f9") {
        Some(0x78)
    } else if same(name, "f10") {
        Some(0x79)
    } else if same(name, "f11") {
        Some(0x7A)
    } else if same(name, "f12") {
        Some(0x7B)
    } else {
        let bytes = name.as_bytes();
        if bytes.len() == 1 {
            Some(bytes[0])
        } else {
            None
        }
    }
}

/// The code of a key by its name.
pub fn windows_key_code(key: &str) -> (r: Option<u8>)
    ensures
        r == key_code(lowercase(key@)),
{
    key_code_of_lower(&to_lowercase(key))
}

// ---- input ----

/// Something that is sent to the computer.
#[derive(Debug, Clone, Copy, PartialEq, Eq, Structural)]
pub enum InputEvent {
    /// The cursor goes to a place.
    Cursor { x: i32, y: i32 },
    /// A button of the mouse, or its wheel.
    Mouse { flags: u32, data: u32 },
    /// A key goes down, or up.
    Key { code: u8, up: bool },
}

/// The key that is held for a capital letter.
pub const SHIFT_KEY: u8 = 0x10;

/// The events of a character. `mapped` is the key that the keyboard has for it in its lower byte,
/// and what is held with it in its upper byte; 65535 says that there is none.
pub open spec fn character_events(mapped: u16) -> Seq<InputEvent> {
    let code = (mapped % 256) as u8;
    let press = seq![InputEvent::Key { code, up: false }, InputEvent::Key { code, up: true }];
    if mapped == 65535 {
        Seq::empty()
    } else if mapped / 256 % 2 == 1 {
        seq![InputEvent::Key { code: SHIFT_KEY, up: false }] + press + seq![
            InputEvent::Key { code: SHIFT_KEY, up: true },
        ]
    } else {
        press
    }
}

/// The events of a character.
pub fn type_character(mapped: u16) -> (r: Vec<InputEvent>)
    ensures
        r@ == character_events(mapped),
{
    let mut events: Vec<InputEvent> = Vec::new();
    if mapped == 65535 {
        proof {
            assert(events@ =~= Seq::<InputEvent>::empty());
        }
        return events;
    }
    let code: u8 = (mapped % 256) as u8;
    let shift = mapped / 256 % 2 == 1;
    if shift {
        events.push(InputEvent::Key { code: SHIFT_KEY, up: false });
    }
    events.push(InputEvent::Key { code, up: false });
    events.push(InputEvent::Key { code, up: true });
    if shift {
        events.push(InputEvent::Key { code: SHIFT_KEY, up: true });
    }
    proof {
        assert(events@ =~= character_events(mapped));
    }
    events
}

/// What an action of the tool asks for.
#[derive(Debug, PartialEq, Eq)]
pub enum ComputerStep {
    /// Some time is to be waited.
    Wait,
    /// A picture of the screen is to be taken.
    Screenshot,
    /// The cursor is to be moved.
    Move { x: i32, y: i32, report: String },
    /// The events are to be sent.
    Send { events: Vec<InputEvent>, report: String },
    /// The text is to be typed, character by character.
    Type { text: String, report: String },
}

/// What an integer of 64 bits is when only its lower half counts.
pub open spec fn lower_half(n: int) -> i32 {
    let u = n % 4294967296;
    if u >= 2147483648 {
        (u - 4294967296) as i32
    } else {
        u as i32
    }
}

fn to_lower_half(n: i64) -> (r: i32)
    ensures
        r == lower_half(n as int),
{
    let u: i128 = (n as i128 + 9223372036854775808) % 4294967296;
    proof {
        vstd::arithmetic::div_mod::lemma_mod_multiples_vanish(2147483648, n as int, 4294967296);
    }
    if u >= 2147483648 {
        (u - 4294967296) as i32
    } else {
        u as i32
    }
}


/// The integer of an argument.
pub open spec fn integer_at(arguments: JsonModel, key: Seq<char>) -> Option<i64> {
    match arguments.get(key) {
        Some(value) => value.as_i64(),
        None => None,
    }
}

fn integer_argument_at(arguments: &Json, key: &str) -> (r: Option<i64>)
    ensures
        r == integer_at(arguments.deep_view(), key@),
{
    match arguments.get(key) {
        Some(value) => value.as_i64(),
        None => None,
    }
}

/// The flags of a button that goes down, and that goes up.
pub open spec fn button_flags(button: Seq<char>) -> (u32, u32) {
    if button == "right"@ {
        (0x0008, 0x0010)
    } else if button == "middle"@ {
        (0x0020, 0x0040)
    } else {
        (0x0002, 0x0004)
    }
}

/// So many clicks of a button.
pub open spec fn click_events(down: u32, up: u32, clicks: nat) -> Seq<InputEvent>
    decreases clicks,
{
    if clicks == 0 {
        Seq::empty()
    } else {
        click_events(down, up, (clicks - 1) as nat).push(
            InputEvent::Mouse { flags: down, data: 0 },
        ).push(InputEvent::Mouse { flags: up, data: 0 })
    }
}

/// How often is clicked: once where nothing is said, and three times at the most.
pub open spec fn click_count(arguments: JsonModel) -> u64 {
    let n = number_or(arguments, "num_clicks"@, 1);
    if n < 1 {
        1
    } else if n > 3 {
        3
    } else {
        n
    }
}

/// How far the wheel is turned: ten notches at the most, up or down.
pub open spec fn wheel_notches(arguments: JsonModel) -> int {
    let n = match integer_at(arguments, "amount"@) {
        Some(n) => n as int,
        None => 0,
    };
    if n < -10 {
        -10
    } else if n > 10 {
        10
    } else {
        n
    }
}

/// What the wheel is told for so many notches.
pub open spec fn wheel_data(notches: int) -> u32 {
    if notches < 0 {
        (4294967296 + notches * 120) as u32
    } else {
        (notches * 120) as u32
    }
}

/// What a step is.
pub enum ComputerModel {
    Wait,
    Screenshot,
    Move { x: i32, y: i32, report: Seq<char> },
    Send { events: Seq<InputEvent>, report: Seq<char> },
    Type { text: Seq<char>, report: Seq<char> },
}

impl DeepView for ComputerStep {
    type V = ComputerModel;

    open spec fn deep_view(&self) -> ComputerModel {
        match self {
            ComputerStep::Wait => ComputerModel::Wait,
            ComputerStep::Screenshot => ComputerModel::Screenshot,
            ComputerStep::Move { x, y, report } => ComputerModel::Move {
                x: *x,
                y: *y,
                report: report@,
            },
            ComputerStep::Send { events, report } => ComputerModel::Send {
                events: events@,
                report: report@,
            },
            ComputerStep::Type { text, report } => ComputerModel::Type {
                text: text@,
                report: report@,
            },
        }
    }
}

pub open spec fn move_step(a: JsonModel) -> Result<ComputerModel, Seq<char>> {
    match (integer_at(a, "x"@), integer_at(a, "y"@)) {
        (None, _) => Err("move_to requires x"@),
        (Some(_), None) => Err("move_to requires y"@),
        (Some(x), Some(y)) => Ok(
            ComputerModel::Move {
                x: lower_half(x as int),
                y: lower_half(y as int),
                report: "Moved cursor to ("@ + signed_decimal(lower_half(x as int) as int) + ", "@
                    + signed_decimal(lower_half(y as int) as int) + ")."@,
            },
        ),
    }
}

pub open spec fn click_step(a: JsonModel) -> ComputerModel {
    let button = a.text_or("button"@, "left"@);
    let (down, up) = button_flags(button);
    let clicks = click_count(a);
    let place = match (integer_at(a, "x"@), integer_at(a, "y"@)) {
        (Some(x), Some(y)) => seq![
            InputEvent::Cursor { x: lower_half(x as int), y: lower_half(y as int) },
        ],
        _ => Seq::empty(),
    };
    ComputerModel::Send {
        events: place + click_events(down, up, clicks as nat),
        report: "Performed "@ + decimal(clicks as nat) + " "@ + button + " click(s)."@,
    }
}

pub open spec fn wheel_step(a: JsonModel) -> ComputerModel {
    let notches = wheel_notches(a);
    ComputerModel::Send {
        events: seq![InputEvent::Mouse { flags: 0x0800, data: wheel_data(notches) }],
        report: "Scrolled by "@ + signed_decimal(notches) + "."@,
    }
}

pub open spec fn press_step(a: JsonModel) -> Result<ComputerModel, Seq<char>> {
    match a.text("key"@) {
        None => Err("press requires key"@),
        Some(key) => match key_code(lowercase(key)) {
            None => Err("Unsupported key: "@ + key),
            Some(code) => Ok(
                ComputerModel::Send {
                    events: seq![
                        InputEvent::Key { code, up: false },
                        InputEvent::Key { code, up: true },
                    ],
                    report: "Pressed "@ + key + "."@,
                },
            ),
        },
    }
}

/// What a call of the tool asks for. Input is possible only where the computer takes any.
pub open spec fn computer_step(a: JsonModel, takes_input: bool) -> Result<
    ComputerModel,
    Seq<char>,
> {
    match a.text("action"@) {
        None => Err("rust_computer_use requires action"@),
        Some(action) => if action == "wait"@ {
            Ok(ComputerModel::Wait)
        } else if action == "screenshot"@ {
            Ok(ComputerModel::Screenshot)
        } else if !takes_input {
            Err("rust_computer_use input actions require Windows user32 in a production build."@)
        } else if action == "move_to"@ {
            move_step(a)
        } else if action == "click"@ {
            Ok(click_step(a))
        } else if action == "scroll"@ {
            Ok(wheel_step(a))
        } else if action == "type"@ {
            match a.text("text"@) {
                None => Err("type requires text"@),
                Some(text) => Ok(
                    ComputerModel::Type {
                        text,
                        report: "Typed "@ + decimal(text.len()) + " characters."@,
                    },
                ),
            }
        } else if action == "press"@ {
            press_step(a)
        } else {
            Err("Unsupported computer action: "@ + action)
        },
    }
}

/// Whether a step is what it should be.
pub open spec fn step_is(
    r: Result<ComputerStep, String>,
    wanted: Result<ComputerModel, Seq<char>>,
) -> bool {
    match wanted {
        Ok(step) => r is Ok && r->Ok_0.deep_view() == step,
        Err(error) => r is Err && r->Err_0@ == error,
    }
}

fn plan_move(arguments: &Json) -> (r: Result<ComputerStep, String>)
    ensures
        step_is(r, move_step(arguments.deep_view())),
{
    let x = match integer_argument_at(arguments, "x") {
        Some(x) => to_lower_half(x),
        None => {
            return Err("move_to requires x".to_owned());
        },
    };
    let y = match integer_argument_at(arguments, "y") {
        Some(y) => to_lower_half(y),
        None => {
            return Err("move_to requires y".to_owned());
        },
    };
    let report = concat5(
        "Moved cursor to (",
        &signed_text(x as i64),
        ", ",
        &signed_text(y as i64),
        ").",
    );
    Ok(ComputerStep::Move { x, y, report })
}

fn plan_click(arguments: &Json) -> (r: ComputerStep)
    ensures
        r.deep_view() == click_step(arguments.deep_view()),
{
    let mut events: Vec<InputEvent> = Vec::new();
    if let (Some(x), Some(y)) = (
        integer_argument_at(arguments, "x"),
        integer_argument_at(arguments, "y"),
    ) {
        events.push(InputEvent::Cursor { x: to_lower_half(x), y: to_lower_half(y) });
    }
    let ghost place = events@;
    let button = arguments.text_or("button", "left");
    let (down, up): (u32, u32) = if same(&button, "right") {
        (0x0008, 0x0010)
    } else if same(&button, "middle") {
        (0x0020, 0x0040)
    } else {
        (0x0002, 0x0004)
    };
    let asked = number_argument(arguments, "num_clicks", 1);
    let clicks: u64 = if asked < 1 {
        1
    } else if asked > 3 {
        3
    } else {
        asked
    };
    let mut i: u64 = 0;
    proof {
        assert(place + click_events(down, up, 0) =~= place);
    }
    while i < clicks
        invariant
            i <= clicks,
            events@ == place + click_events(down, up, i as nat),
        decreases clicks - i,
    {
        let ghost before = events@;
        events.push(InputEvent::Mouse { flags: down, data: 0 });
        events.push(InputEvent::Mouse { flags: up, data: 0 });
        proof {
            assert(events@ =~= place + click_events(down, up, (i + 1) as nat));
        }
        i += 1;
    }
    proof {
        let wanted = click_step(arguments.deep_view());
        assert(place =~= match (
            integer_at(arguments.deep_view(), "x"@),
            integer_at(arguments.deep_view(), "y"@),
        ) {
            (Some(x), Some(y)) => seq![
                InputEvent::Cursor { x: lower_half(x as int), y: lower_half(y as int) },
            ],
            _ => Seq::empty(),
        });
    }
    let report = concat5("Performed ", &number_text(clicks), " ", &button, " click(s).");
    ComputerStep::Send { events, report }
}

fn plan_wheel(arguments: &Json) -> (r: ComputerStep)
    ensures
        r.deep_view() == wheel_step(arguments.deep_view()),
{
    let asked: i64 = match integer_argument_at(arguments, "amount") {
        Some(n) => n,
        None => 0,
    };
    let notches: i64 = if asked < -10 {
        -10
    } else if asked > 10 {
        10
    } else {
        asked
    };
    let data: u32 = if notches < 0 {
        (4294967296 + notches * 120) as u32
    } else {
        (notches * 120) as u32
    };
    let mut events: Vec<InputEvent> = Vec::new();
    events.push(InputEvent::Mouse { flags: 0x0800, data });
    proof {
        assert(events@ =~= seq![InputEvent::Mouse { flags: 0x0800, data }]);
    }
    ComputerStep::Send {
        events,
        report: concat3("Scrolled by ", &signed_text(notches), "."),
    }
}

fn plan_press(arguments: &Json) -> (r: Result<ComputerStep, String>)
    ensures
        step_is(r, press_step(arguments.deep_view())),
{
    let key = match arguments.text("key") {
        Some(key) => key,
        None => {
            return Err("press requires key".to_owned());
        },
    };
    match windows_key_code(key) {
        Some(code) => {
            let mut events: Vec<InputEvent> = Vec::new();
            events.push(InputEvent::Key { code, up: false });
            events.push(InputEvent::Key { code, up: true });
            proof {
                assert(events@ =~= seq![
                    InputEvent::Key { code, up: false },
                    InputEvent::Key { code, up: true },
                ]);
            }
            Ok(ComputerStep::Send { events, report: concat3("Pressed ", key, ".") })
        },
        None => Err(concat2("Unsupported key: ", key)),
    }
}

/// Decides what a call of the tool asks for. `takes_input` says whether the computer takes input.
pub fn plan_computer(arguments: &Json, takes_input: bool) -> (r: Result<ComputerStep, String>)
    ensures
        step_is(r, computer_step(arguments.deep_view(), takes_input)),
{
    let action = match arguments.text("action") {
        Some(action) => action,
        None => {
            return Err("rust_computer_use requires action".to_owned());
        },
    };
    if same(action, "wait") {
        Ok(ComputerStep::Wait)
    } else if same(action, "screenshot") {
        Ok(ComputerStep::Screenshot)
    } else if !takes_input {
        Err(
            "rust_computer_use input actions require Windows user32 in a production build.".to_owned(),
        )
    } else if same(action, "move_to") {
        plan_move(arguments)
    } else if same(action, "click") {
        Ok(plan_click(arguments))
    } else if same(action, "scroll") {
        Ok(plan_wheel(arguments))
    } else if same(action, "type") {
        match arguments.text("text") {
            Some(text) => Ok(
                ComputerStep::Type {
                    text: text.clone(),
                    report: concat3(
                        "Typed ",
                        &number_text(text.as_str().unicode_len() as u64),
                        " characters.",
                    ),
                },
            ),
            None => Err("type requires text".to_owned()),
        }
    } else if same(action, "press") {
        plan_press(arguments)
    } else {
        Err(concat2("Unsupported computer action: ", action))
    }
}

} // verus!
