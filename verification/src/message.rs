//! The application message layer: the device-data variants, the wire
//! message variants, and their JSON wire codec.
//!
//! Messages travel as compact JSON (no interstitial whitespace), each
//! message an externally tagged variant in snake case. Temperatures and
//! humidities are fixed-point tenths — the sensors' native resolution —
//! rendered with one decimal digit. The decoder is specified as a pure
//! parser over the wire bytes and proved to invert the encoder.

use vstd::prelude::*;
use vstd::slice::slice_to_vec;
use crate::bytes::append_bytes;

verus! {

/// The state of one device dimension, as reported or commanded.
/// Optional fields mean "ignore this dimension". `temperature` and
/// `humidity` are tenths of a degree / of a percent.
#[derive(Debug, Clone, Copy, PartialEq, Eq, Structural)]
pub enum DeviceData {
    Light { state: Option<bool>, auto_control: Option<bool> },
    Switch { state: bool },
    Lock { unlock: Option<bool>, add_rfid: Option<bool>, clear_rfid: Option<bool> },
    Environment { temperature: i32, humidity: i32, dark: bool },
    Motion { state: bool },
    Fan {
        state: Option<bool>,
        threshold_temp: Option<i8>,
        auto_control: Option<bool>,
        light_state: Option<bool>,
    },
}

/// A wire message: a role-set mutation carrying a peer identity, or a
/// device update / control command.
pub enum Message {
    AddController(Vec<u8>),
    RemoveController(Vec<u8>),
    AddSubscriber(Vec<u8>),
    RemoveSubscriber(Vec<u8>),
    AddManager(Vec<u8>),
    RemoveManager(Vec<u8>),
    Update(DeviceData),
    Control(DeviceData),
}

/// Model of a message, with identities as byte strings.
pub enum MessageModel {
    AddController(Seq<u8>),
    RemoveController(Seq<u8>),
    AddSubscriber(Seq<u8>),
    RemoveSubscriber(Seq<u8>),
    AddManager(Seq<u8>),
    RemoveManager(Seq<u8>),
    Update(DeviceData),
    Control(DeviceData),
}

impl View for Message {
    type V = MessageModel;

    open spec fn view(&self) -> MessageModel {
        match self {
            Message::AddController(id) => MessageModel::AddController(id@),
            Message::RemoveController(id) => MessageModel::RemoveController(id@),
            Message::AddSubscriber(id) => MessageModel::AddSubscriber(id@),
            Message::RemoveSubscriber(id) => MessageModel::RemoveSubscriber(id@),
            Message::AddManager(id) => MessageModel::AddManager(id@),
            Message::RemoveManager(id) => MessageModel::RemoveManager(id@),
            Message::Update(d) => MessageModel::Update(*d),
            Message::Control(d) => MessageModel::Control(*d),
        }
    }
}

/// A byte that may stand unescaped inside a JSON string.
pub open spec fn json_plain(b: u8) -> bool {
    0x20 <= b && b <= 0x7e && b != 0x22 && b != 0x5c
}

/// A well-formed identity: printable ASCII without quote or backslash.
pub open spec fn id_wf(id: Seq<u8>) -> bool {
    forall|i: int| 0 <= i < id.len() ==> json_plain(#[trigger] id[i])
}

/// A well-formed device datum: fixed-point values within four digits.
pub open spec fn dev_wf(d: DeviceData) -> bool {
    match d {
        DeviceData::Environment { temperature, humidity, dark } => -9999 <= temperature <= 9999
            && -9999 <= humidity <= 9999,
        _ => true,
    }
}

/// A well-formed message.
pub open spec fn msg_wf(m: MessageModel) -> bool {
    match m {
        MessageModel::AddController(id) => id_wf(id),
        MessageModel::RemoveController(id) => id_wf(id),
        MessageModel::AddSubscriber(id) => id_wf(id),
        MessageModel::RemoveSubscriber(id) => id_wf(id),
        MessageModel::AddManager(id) => id_wf(id),
        MessageModel::RemoveManager(id) => id_wf(id),
        MessageModel::Update(d) => dev_wf(d),
        MessageModel::Control(d) => dev_wf(d),
    }
}

/// The byte literal `true`.
pub open spec fn lit_true() -> Seq<u8> {
    seq![116u8, 114, 117, 101]
}

/// The byte literal `false`.
pub open spec fn lit_false() -> Seq<u8> {
    seq![102u8, 97, 108, 115, 101]
}

/// The byte literal `null`.
pub open spec fn lit_null() -> Seq<u8> {
    seq![110u8, 117, 108, 108]
}

/// The byte literal `{\"add_controller\":\"`.
pub open spec fn pre_add_controller() -> Seq<u8> {
    seq![123u8, 34, 97, 100, 100, 95, 99, 111, 110, 116, 114, 111, 108, 108, 101, 114, 34, 58, 34]
}

/// The byte literal `{\"remove_controller\":\"`.
pub open spec fn pre_remove_controller() -> Seq<u8> {
    seq![123u8, 34, 114, 101, 109, 111, 118, 101, 95, 99, 111, 110, 116, 114, 111, 108, 108, 101, 114, 34, 58, 34]
}

/// The byte literal `{\"add_subscriber\":\"`.
pub open spec fn pre_add_subscriber() -> Seq<u8> {
    seq![123u8, 34, 97, 100, 100, 95, 115, 117, 98, 115, 99, 114, 105, 98, 101, 114, 34, 58, 34]
}

/// The byte literal `{\"remove_subscriber\":\"`.
pub open spec fn pre_remove_subscriber() -> Seq<u8> {
    seq![123u8, 34, 114, 101, 109, 111, 118, 101, 95, 115, 117, 98, 115, 99, 114, 105, 98, 101, 114, 34, 58, 34]
}

/// The byte literal `{\"add_manager\":\"`.
pub open spec fn pre_add_manager() -> Seq<u8> {
    seq![123u8, 34, 97, 100, 100, 95, 109, 97, 110, 97, 103, 101, 114, 34, 58, 34]
}

/// The byte literal `{\"remove_manager\":\"`.
pub open spec fn pre_remove_manager() -> Seq<u8> {
    seq![123u8, 34, 114, 101, 109, 111, 118, 101, 95, 109, 97, 110, 97, 103, 101, 114, 34, 58, 34]
}

/// The byte literal `\"}`.
pub open spec fn suf_role() -> Seq<u8> {
    seq![34u8, 125]
}

/// The byte literal `{\"update\":`.
pub open spec fn pre_update() -> Seq<u8> {
    seq![123u8, 34, 117, 112, 100, 97, 116, 101, 34, 58]
}

/// The byte literal `{\"control\":`.
pub open spec fn pre_control() -> Seq<u8> {
    seq![123u8, 34, 99, 111, 110, 116, 114, 111, 108, 34, 58]
}

/// The byte literal `}`.
pub open spec fn suf_brace() -> Seq<u8> {
    seq![125u8]
}

/// The byte literal `{\"light\":{\"state\":`.
pub open spec fn pre_light() -> Seq<u8> {
    seq![123u8, 34, 108, 105, 103, 104, 116, 34, 58, 123, 34, 115, 116, 97, 116, 101, 34, 58]
}

/// The byte literal `,\"auto_control\":`.
pub open spec fn mid_auto_control() -> Seq<u8> {
    seq![44u8, 34, 97, 117, 116, 111, 95, 99, 111, 110, 116, 114, 111, 108, 34, 58]
}

/// The byte literal `}}`.
pub open spec fn suf_obj2() -> Seq<u8> {
    seq![125u8, 125]
}

/// The byte literal `{\"switch\":{\"state\":`.
pub open spec fn pre_switch() -> Seq<u8> {
    seq![123u8, 34, 115, 119, 105, 116, 99, 104, 34, 58, 123, 34, 115, 116, 97, 116, 101, 34, 58]
}

/// The byte literal `{\"lock\":{\"unlock\":`.
pub open spec fn pre_lock() -> Seq<u8> {
    seq![123u8, 34, 108, 111, 99, 107, 34, 58, 123, 34, 117, 110, 108, 111, 99, 107, 34, 58]
}

/// The byte literal `,\"add_rfid\":`.
pub open spec fn mid_add_rfid() -> Seq<u8> {
    seq![44u8, 34, 97, 100, 100, 95, 114, 102, 105, 100, 34, 58]
}

/// The byte literal `,\"clear_rfid\":`.
pub open spec fn mid_clear_rfid() -> Seq<u8> {
    seq![44u8, 34, 99, 108, 101, 97, 114, 95, 114, 102, 105, 100, 34, 58]
}

/// The byte literal `{\"environment\":{\"temperature\":`.
pub open spec fn pre_environment() -> Seq<u8> {
    seq![123u8, 34, 101, 110, 118, 105, 114, 111, 110, 109, 101, 110, 116, 34, 58, 123, 34, 116, 101, 109, 112, 101, 114, 97, 116, 117, 114, 101, 34, 58]
}

/// The byte literal `,\"humidity\":`.
pub open spec fn mid_humidity() -> Seq<u8> {
    seq![44u8, 34, 104, 117, 109, 105, 100, 105, 116, 121, 34, 58]
}

/// The byte literal `,\"dark\":`.
pub open spec fn mid_dark() -> Seq<u8> {
    seq![44u8, 34, 100, 97, 114, 107, 34, 58]
}

/// The byte literal `{\"motion\":{\"state\":`.
pub open spec fn pre_motion() -> Seq<u8> {
    seq![123u8, 34, 109, 111, 116, 105, 111, 110, 34, 58, 123, 34, 115, 116, 97, 116, 101, 34, 58]
}

/// The byte literal `{\"fan\":{\"state\":`.
pub open spec fn pre_fan() -> Seq<u8> {
    seq![123u8, 34, 102, 97, 110, 34, 58, 123, 34, 115, 116, 97, 116, 101, 34, 58]
}

/// The byte literal `,\"threshold_temp\":`.
pub open spec fn mid_threshold_temp() -> Seq<u8> {
    seq![44u8, 34, 116, 104, 114, 101, 115, 104, 111, 108, 100, 95, 116, 101, 109, 112, 34, 58]
}

/// The byte literal `,\"light_state\":`.
pub open spec fn mid_light_state() -> Seq<u8> {
    seq![44u8, 34, 108, 105, 103, 104, 116, 95, 115, 116, 97, 116, 101, 34, 58]
}

/// The decimal digits of `n`, most significant first.
pub open spec fn digits_of(n: nat) -> Seq<u8>
    decreases n,
{
    if n < 10 {
        seq![(0x30 + n) as u8]
    } else {
        digits_of(n / 10) + seq![(0x30 + (n % 10)) as u8]
    }
}

/// The JSON bytes of a boolean.
pub open spec fn bool_json(b: bool) -> Seq<u8> {
    if b {
        lit_true()
    } else {
        lit_false()
    }
}

/// The JSON bytes of an optional boolean: `null` when absent.
pub open spec fn optbool_json(b: Option<bool>) -> Seq<u8> {
    match b {
        Some(x) => bool_json(x),
        None => lit_null(),
    }
}

/// The JSON bytes of a signed integer.
pub open spec fn int_json(v: int) -> Seq<u8> {
    if v < 0 {
        seq![0x2du8] + digits_of((-v) as nat)
    } else {
        digits_of(v as nat)
    }
}

/// The JSON bytes of an optional small integer: `null` when absent.
pub open spec fn opti8_json(v: Option<i8>) -> Seq<u8> {
    match v {
        Some(x) => int_json(x as int),
        None => lit_null(),
    }
}

/// The JSON bytes of a fixed-point tenths value, one decimal digit.
pub open spec fn tenths_json(v: int) -> Seq<u8> {
    let m = if v < 0 { -v } else { v };
    (if v < 0 {
        seq![0x2du8]
    } else {
        Seq::<u8>::empty()
    }) + digits_of((m / 10) as nat) + seq![0x2eu8] + seq![(0x30 + (m % 10)) as u8]
}

/// The JSON bytes of a device datum.
pub open spec fn dev_json(d: DeviceData) -> Seq<u8> {
    match d {
        DeviceData::Light { state, auto_control } => pre_light() + optbool_json(state)
            + mid_auto_control() + optbool_json(auto_control) + suf_obj2(),
        DeviceData::Switch { state } => pre_switch() + bool_json(state) + suf_obj2(),
        DeviceData::Lock { unlock, add_rfid, clear_rfid } => pre_lock() + optbool_json(unlock)
            + mid_add_rfid() + optbool_json(add_rfid) + mid_clear_rfid() + optbool_json(clear_rfid)
            + suf_obj2(),
        DeviceData::Environment { temperature, humidity, dark } => pre_environment()
            + tenths_json(temperature as int) + mid_humidity() + tenths_json(humidity as int)
            + mid_dark() + bool_json(dark) + suf_obj2(),
        DeviceData::Motion { state } => pre_motion() + bool_json(state) + suf_obj2(),
        DeviceData::Fan { state, threshold_temp, auto_control, light_state } => pre_fan()
            + optbool_json(state) + mid_threshold_temp() + opti8_json(threshold_temp)
            + mid_auto_control() + optbool_json(auto_control) + mid_light_state() + optbool_json(
            light_state,
        ) + suf_obj2(),
    }
}

/// The JSON bytes of a whole message.
pub open spec fn msg_json(m: MessageModel) -> Seq<u8> {
    match m {
        MessageModel::AddController(id) => pre_add_controller() + id + suf_role(),
        MessageModel::RemoveController(id) => pre_remove_controller() + id + suf_role(),
        MessageModel::AddSubscriber(id) => pre_add_subscriber() + id + suf_role(),
        MessageModel::RemoveSubscriber(id) => pre_remove_subscriber() + id + suf_role(),
        MessageModel::AddManager(id) => pre_add_manager() + id + suf_role(),
        MessageModel::RemoveManager(id) => pre_remove_manager() + id + suf_role(),
        MessageModel::Update(d) => pre_update() + dev_json(d) + suf_brace(),
        MessageModel::Control(d) => pre_control() + dev_json(d) + suf_brace(),
    }
}

/// The literal as a vector.
fn lit_true_bytes() -> (r: Vec<u8>)
    ensures
        r@ == lit_true(),
{
    let a: [u8; 4] = [116u8, 114, 117, 101];
    let r = slice_to_vec(a.as_slice());
    assert(r@ =~= lit_true());
    r
}

/// The literal as a vector.
fn lit_false_bytes() -> (r: Vec<u8>)
    ensures
        r@ == lit_false(),
{
    let a: [u8; 5] = [102u8, 97, 108, 115, 101];
    let r = slice_to_vec(a.as_slice());
    assert(r@ =~= lit_false());
    r
}

/// The literal as a vector.
fn lit_null_bytes() -> (r: Vec<u8>)
    ensures
        r@ == lit_null(),
{
    let a: [u8; 4] = [110u8, 117, 108, 108];
    let r = slice_to_vec(a.as_slice());
    assert(r@ =~= lit_null());
    r
}

/// The literal as a vector.
fn pre_add_controller_bytes() -> (r: Vec<u8>)
    ensures
        r@ == pre_add_controller(),
{
    let a: [u8; 19] = [123u8, 34, 97, 100, 100, 95, 99, 111, 110, 116, 114, 111, 108, 108, 101, 114, 34, 58, 34];
    let r = slice_to_vec(a.as_slice());
    assert(r@ =~= pre_add_controller());
    r
}

/// The literal as a vector.
fn pre_remove_controller_bytes() -> (r: Vec<u8>)
    ensures
        r@ == pre_remove_controller(),
{
    let a: [u8; 22] = [123u8, 34, 114, 101, 109, 111, 118, 101, 95, 99, 111, 110, 116, 114, 111, 108, 108, 101, 114, 34, 58, 34];
    let r = slice_to_vec(a.as_slice());
    assert(r@ =~= pre_remove_controller());
    r
}

/// The literal as a vector.
fn pre_add_subscriber_bytes() -> (r: Vec<u8>)
    ensures
        r@ == pre_add_subscriber(),
{
    let a: [u8; 19] = [123u8, 34, 97, 100, 100, 95, 115, 117, 98, 115, 99, 114, 105, 98, 101, 114, 34, 58, 34];
    let r = slice_to_vec(a.as_slice());
    assert(r@ =~= pre_add_subscriber());
    r
}

/// The literal as a vector.
fn pre_remove_subscriber_bytes() -> (r: Vec<u8>)
    ensures
        r@ == pre_remove_subscriber(),
{
    let a: [u8; 22] = [123u8, 34, 114, 101, 109, 111, 118, 101, 95, 115, 117, 98, 115, 99, 114, 105, 98, 101, 114, 34, 58, 34];
    let r = slice_to_vec(a.as_slice());
    assert(r@ =~= pre_remove_subscriber());
    r
}

/// The literal as a vector.
fn pre_add_manager_bytes() -> (r: Vec<u8>)
    ensures
        r@ == pre_add_manager(),
{
    let a: [u8; 16] = [123u8, 34, 97, 100, 100, 95, 109, 97, 110, 97, 103, 101, 114, 34, 58, 34];
    let r = slice_to_vec(a.as_slice());
    assert(r@ =~= pre_add_manager());
    r
}

/// The literal as a vector.
fn pre_remove_manager_bytes() -> (r: Vec<u8>)
    ensures
        r@ == pre_remove_manager(),
{
    let a: [u8; 19] = [123u8, 34, 114, 101, 109, 111, 118, 101, 95, 109, 97, 110, 97, 103, 101, 114, 34, 58, 34];
    let r = slice_to_vec(a.as_slice());
    assert(r@ =~= pre_remove_manager());
    r
}

/// The literal as a vector.
fn suf_role_bytes() -> (r: Vec<u8>)
    ensures
        r@ == suf_role(),
{
    let a: [u8; 2] = [34u8, 125];
    let r = slice_to_vec(a.as_slice());
    assert(r@ =~= suf_role());
    r
}

/// The literal as a vector.
fn pre_update_bytes() -> (r: Vec<u8>)
    ensures
        r@ == pre_update(),
{
    let a: [u8; 10] = [123u8, 34, 117, 112, 100, 97, 116, 101, 34, 58];
    let r = slice_to_vec(a.as_slice());
    assert(r@ =~= pre_update());
    r
}

/// The literal as a vector.
fn pre_control_bytes() -> (r: Vec<u8>)
    ensures
        r@ == pre_control(),
{
    let a: [u8; 11] = [123u8, 34, 99, 111, 110, 116, 114, 111, 108, 34, 58];
    let r = slice_to_vec(a.as_slice());
    assert(r@ =~= pre_control());
    r
}

/// The literal as a vector.
fn suf_brace_bytes() -> (r: Vec<u8>)
    ensures
        r@ == suf_brace(),
{
    let a: [u8; 1] = [125u8];
    let r = slice_to_vec(a.as_slice());
    assert(r@ =~= suf_brace());
    r
}

/// The literal as a vector.
fn pre_light_bytes() -> (r: Vec<u8>)
    ensures
        r@ == pre_light(),
{
    let a: [u8; 18] = [123u8, 34, 108, 105, 103, 104, 116, 34, 58, 123, 34, 115, 116, 97, 116, 101, 34, 58];
    let r = slice_to_vec(a.as_slice());
    assert(r@ =~= pre_light());
    r
}

/// The literal as a vector.
fn mid_auto_control_bytes() -> (r: Vec<u8>)
    ensures
        r@ == mid_auto_control(),
{
    let a: [u8; 16] = [44u8, 34, 97, 117, 116, 111, 95, 99, 111, 110, 116, 114, 111, 108, 34, 58];
    let r = slice_to_vec(a.as_slice());
    assert(r@ =~= mid_auto_control());
    r
}

/// The literal as a vector.
fn suf_obj2_bytes() -> (r: Vec<u8>)
    ensures
        r@ == suf_obj2(),
{
    let a: [u8; 2] = [125u8, 125];
    let r = slice_to_vec(a.as_slice());
    assert(r@ =~= suf_obj2());
    r
}

/// The literal as a vector.
fn pre_switch_bytes() -> (r: Vec<u8>)
    ensures
        r@ == pre_switch(),
{
    let a: [u8; 19] = [123u8, 34, 115, 119, 105, 116, 99, 104, 34, 58, 123, 34, 115, 116, 97, 116, 101, 34, 58];
    let r = slice_to_vec(a.as_slice());
    assert(r@ =~= pre_switch());
    r
}

/// The literal as a vector.
fn pre_lock_bytes() -> (r: Vec<u8>)
    ensures
        r@ == pre_lock(),
{
    let a: [u8; 18] = [123u8, 34, 108, 111, 99, 107, 34, 58, 123, 34, 117, 110, 108, 111, 99, 107, 34, 58];
    let r = slice_to_vec(a.as_slice());
    assert(r@ =~= pre_lock());
    r
}

/// The literal as a vector.
fn mid_add_rfid_bytes() -> (r: Vec<u8>)
    ensures
        r@ == mid_add_rfid(),
{
    let a: [u8; 12] = [44u8, 34, 97, 100, 100, 95, 114, 102, 105, 100, 34, 58];
    let r = slice_to_vec(a.as_slice());
    assert(r@ =~= mid_add_rfid());
    r
}

/// The literal as a vector.
fn mid_clear_rfid_bytes() -> (r: Vec<u8>)
    ensures
        r@ == mid_clear_rfid(),
{
    let a: [u8; 14] = [44u8, 34, 99, 108, 101, 97, 114, 95, 114, 102, 105, 100, 34, 58];
    let r = slice_to_vec(a.as_slice());
    assert(r@ =~= mid_clear_rfid());
    r
}

/// The literal as a vector.
fn pre_environment_bytes() -> (r: Vec<u8>)
    ensures
        r@ == pre_environment(),
{
    let a: [u8; 30] = [123u8, 34, 101, 110, 118, 105, 114, 111, 110, 109, 101, 110, 116, 34, 58, 123, 34, 116, 101, 109, 112, 101, 114, 97, 116, 117, 114, 101, 34, 58];
    let r = slice_to_vec(a.as_slice());
    assert(r@ =~= pre_environment());
    r
}

/// The literal as a vector.
fn mid_humidity_bytes() -> (r: Vec<u8>)
    ensures
        r@ == mid_humidity(),
{
    let a: [u8; 12] = [44u8, 34, 104, 117, 109, 105, 100, 105, 116, 121, 34, 58];
    let r = slice_to_vec(a.as_slice());
    assert(r@ =~= mid_humidity());
    r
}

/// The literal as a vector.
fn mid_dark_bytes() -> (r: Vec<u8>)
    ensures
        r@ == mid_dark(),
{
    let a: [u8; 8] = [44u8, 34, 100, 97, 114, 107, 34, 58];
    let r = slice_to_vec(a.as_slice());
    assert(r@ =~= mid_dark());
    r
}

/// The literal as a vector.
fn pre_motion_bytes() -> (r: Vec<u8>)
    ensures
        r@ == pre_motion(),
{
    let a: [u8; 19] = [123u8, 34, 109, 111, 116, 105, 111, 110, 34, 58, 123, 34, 115, 116, 97, 116, 101, 34, 58];
    let r = slice_to_vec(a.as_slice());
    assert(r@ =~= pre_motion());
    r
}

/// The literal as a vector.
fn pre_fan_bytes() -> (r: Vec<u8>)
    ensures
        r@ == pre_fan(),
{
    let a: [u8; 16] = [123u8, 34, 102, 97, 110, 34, 58, 123, 34, 115, 116, 97, 116, 101, 34, 58];
    let r = slice_to_vec(a.as_slice());
    assert(r@ =~= pre_fan());
    r
}

/// The literal as a vector.
fn mid_threshold_temp_bytes() -> (r: Vec<u8>)
    ensures
        r@ == mid_threshold_temp(),
{
    let a: [u8; 18] = [44u8, 34, 116, 104, 114, 101, 115, 104, 111, 108, 100, 95, 116, 101, 109, 112, 34, 58];
    let r = slice_to_vec(a.as_slice());
    assert(r@ =~= mid_threshold_temp());
    r
}

/// The literal as a vector.
fn mid_light_state_bytes() -> (r: Vec<u8>)
    ensures
        r@ == mid_light_state(),
{
    let a: [u8; 15] = [44u8, 34, 108, 105, 103, 104, 116, 95, 115, 116, 97, 116, 101, 34, 58];
    let r = slice_to_vec(a.as_slice());
    assert(r@ =~= mid_light_state());
    r
}

/// Append the decimal digits of `n`.
fn push_digits(out: &mut Vec<u8>, n: u32)
    ensures
        final(out)@ == old(out)@ + digits_of(n as nat),
    decreases n,
{
    if n < 10 {
        out.push((0x30 + n) as u8);
        assert(final(out)@ =~= old(out)@ + digits_of(n as nat));
    } else {
        push_digits(out, n / 10);
        out.push((0x30 + (n % 10)) as u8);
        assert(final(out)@ =~= old(out)@ + digits_of(n as nat));
    }
}

/// Append a boolean literal.
fn push_bool(out: &mut Vec<u8>, b: bool)
    ensures
        final(out)@ == old(out)@ + bool_json(b),
{
    let lit = if b {
        lit_true_bytes()
    } else {
        lit_false_bytes()
    };
    append_bytes(out, lit.as_slice());
}

/// Append an optional boolean, `null` when absent.
fn push_optbool(out: &mut Vec<u8>, b: Option<bool>)
    ensures
        final(out)@ == old(out)@ + optbool_json(b),
{
    match b {
        Some(x) => push_bool(out, x),
        None => {
            let lit = lit_null_bytes();
            append_bytes(out, lit.as_slice());
        },
    }
}

/// Append an optional small integer, `null` when absent.
fn push_opti8(out: &mut Vec<u8>, v: Option<i8>)
    ensures
        final(out)@ == old(out)@ + opti8_json(v),
{
    match v {
        None => {
            let lit = lit_null_bytes();
            append_bytes(out, lit.as_slice());
        },
        Some(x) => {
            if x < 0 {
                out.push(0x2du8);
                let m: u32 = if x == -128 {
                    128
                } else {
                    (-(x as i32)) as u32
                };
                push_digits(out, m);
                assert(final(out)@ =~= old(out)@ + opti8_json(v));
            } else {
                push_digits(out, x as u32);
            }
        },
    }
}

/// Append a fixed-point tenths value with one decimal digit.
fn push_tenths(out: &mut Vec<u8>, v: i32)
    requires
        -9999 <= v <= 9999,
    ensures
        final(out)@ == old(out)@ + tenths_json(v as int),
{
    let m: u32 = if v < 0 {
        out.push(0x2du8);
        (-v) as u32
    } else {
        v as u32
    };
    push_digits(out, m / 10);
    out.push(0x2eu8);
    out.push((0x30 + (m % 10)) as u8);
    assert(final(out)@ =~= old(out)@ + tenths_json(v as int));
}

impl DeviceData {
    /// Encode this datum as JSON.
    pub fn to_json(&self) -> (r: Vec<u8>)
        requires
            dev_wf(*self),
        ensures
            r@ == dev_json(*self),
    {
        let mut out: Vec<u8> = Vec::new();
        match self {
            DeviceData::Light { state, auto_control } => {
                let lit = pre_light_bytes();
                append_bytes(&mut out, lit.as_slice());
                push_optbool(&mut out, *state);
                let lit = mid_auto_control_bytes();
                append_bytes(&mut out, lit.as_slice());
                push_optbool(&mut out, *auto_control);
                let lit = suf_obj2_bytes();
                append_bytes(&mut out, lit.as_slice());
            },
            DeviceData::Switch { state } => {
                let lit = pre_switch_bytes();
                append_bytes(&mut out, lit.as_slice());
                push_bool(&mut out, *state);
                let lit = suf_obj2_bytes();
                append_bytes(&mut out, lit.as_slice());
            },
            DeviceData::Lock { unlock, add_rfid, clear_rfid } => {
                let lit = pre_lock_bytes();
                append_bytes(&mut out, lit.as_slice());
                push_optbool(&mut out, *unlock);
                let lit = mid_add_rfid_bytes();
                append_bytes(&mut out, lit.as_slice());
                push_optbool(&mut out, *add_rfid);
                let lit = mid_clear_rfid_bytes();
                append_bytes(&mut out, lit.as_slice());
                push_optbool(&mut out, *clear_rfid);
                let lit = suf_obj2_bytes();
                append_bytes(&mut out, lit.as_slice());
            },
            DeviceData::Environment { temperature, humidity, dark } => {
                let lit = pre_environment_bytes();
                append_bytes(&mut out, lit.as_slice());
                push_tenths(&mut out, *temperature);
                let lit = mid_humidity_bytes();
                append_bytes(&mut out, lit.as_slice());
                push_tenths(&mut out, *humidity);
                let lit = mid_dark_bytes();
                append_bytes(&mut out, lit.as_slice());
                push_bool(&mut out, *dark);
                let lit = suf_obj2_bytes();
                append_bytes(&mut out, lit.as_slice());
            },
            DeviceData::Motion { state } => {
                let lit = pre_motion_bytes();
                append_bytes(&mut out, lit.as_slice());
                push_bool(&mut out, *state);
                let lit = suf_obj2_bytes();
                append_bytes(&mut out, lit.as_slice());
            },
            DeviceData::Fan { state, threshold_temp, auto_control, light_state } => {
                let lit = pre_fan_bytes();
                append_bytes(&mut out, lit.as_slice());
                push_optbool(&mut out, *state);
                let lit = mid_threshold_temp_bytes();
                append_bytes(&mut out, lit.as_slice());
                push_opti8(&mut out, *threshold_temp);
                let lit = mid_auto_control_bytes();
                append_bytes(&mut out, lit.as_slice());
                push_optbool(&mut out, *auto_control);
                let lit = mid_light_state_bytes();
                append_bytes(&mut out, lit.as_slice());
                push_optbool(&mut out, *light_state);
                let lit = suf_obj2_bytes();
                append_bytes(&mut out, lit.as_slice());
            },
        }
        out
    }
}

impl Message {
    /// Encode this message as JSON wire bytes.
    pub fn to_json(&self) -> (r: Vec<u8>)
        requires
            msg_wf(self@),
        ensures
            r@ == msg_json(self@),
    {
        let mut out: Vec<u8> = Vec::new();
        match self {
            Message::AddController(id) => {
                let lit = pre_add_controller_bytes();
                append_bytes(&mut out, lit.as_slice());
                append_bytes(&mut out, id.as_slice());
                let lit = suf_role_bytes();
                append_bytes(&mut out, lit.as_slice());
            },
            Message::RemoveController(id) => {
                let lit = pre_remove_controller_bytes();
                append_bytes(&mut out, lit.as_slice());
                append_bytes(&mut out, id.as_slice());
                let lit = suf_role_bytes();
                append_bytes(&mut out, lit.as_slice());
            },
            Message::AddSubscriber(id) => {
                let lit = pre_add_subscriber_bytes();
                append_bytes(&mut out, lit.as_slice());
                append_bytes(&mut out, id.as_slice());
                let lit = suf_role_bytes();
                append_bytes(&mut out, lit.as_slice());
            },
            Message::RemoveSubscriber(id) => {
                let lit = pre_remove_subscriber_bytes();
                append_bytes(&mut out, lit.as_slice());
                append_bytes(&mut out, id.as_slice());
                let lit = suf_role_bytes();
                append_bytes(&mut out, lit.as_slice());
            },
            Message::AddManager(id) => {
                let lit = pre_add_manager_bytes();
                append_bytes(&mut out, lit.as_slice());
                append_bytes(&mut out, id.as_slice());
                let lit = suf_role_bytes();
                append_bytes(&mut out, lit.as_slice());
            },
            Message::RemoveManager(id) => {
                let lit = pre_remove_manager_bytes();
                append_bytes(&mut out, lit.as_slice());
                append_bytes(&mut out, id.as_slice());
                let lit = suf_role_bytes();
                append_bytes(&mut out, lit.as_slice());
            },
            Message::Update(d) => {
                let lit = pre_update_bytes();
                append_bytes(&mut out, lit.as_slice());
                let dev = d.to_json();
                append_bytes(&mut out, dev.as_slice());
                let lit = suf_brace_bytes();
                append_bytes(&mut out, lit.as_slice());
            },
            Message::Control(d) => {
                let lit = pre_control_bytes();
                append_bytes(&mut out, lit.as_slice());
                let dev = d.to_json();
                append_bytes(&mut out, dev.as_slice());
                let lit = suf_brace_bytes();
                append_bytes(&mut out, lit.as_slice());
            },
        }
        out
    }
}


// --- parsing ------------------------------------------------------------
/// Whether `s` holds `lit` starting at `pos`.
pub open spec fn lit_at(s: Seq<u8>, pos: int, lit: Seq<u8>) -> bool {
    0 <= pos && pos + lit.len() <= s.len() && s.subrange(pos, pos + lit.len()) == lit
}

/// An ASCII decimal digit.
pub open spec fn is_digit(b: u8) -> bool {
    0x30 <= b && b <= 0x39
}

/// The end of the digit run starting at `pos`.
pub open spec fn digits_end(s: Seq<u8>, pos: int) -> int
    recommends
        0 <= pos <= s.len(),
    decreases s.len() - pos when 0 <= pos <= s.len()
{
    if !(0 <= pos < s.len()) || !is_digit(s[pos]) {
        pos
    } else {
        digits_end(s, pos + 1)
    }
}

/// The end of the plain-character run starting at `pos`.
pub open spec fn plain_end(s: Seq<u8>, pos: int) -> int
    recommends
        0 <= pos <= s.len(),
    decreases s.len() - pos when 0 <= pos <= s.len()
{
    if !(0 <= pos < s.len()) || !json_plain(s[pos]) {
        pos
    } else {
        plain_end(s, pos + 1)
    }
}

/// The number denoted by a digit string, most significant first.
pub open spec fn digits_val(s: Seq<u8>) -> nat
    decreases s.len(),
{
    if s.len() == 0 {
        0
    } else {
        digits_val(s.drop_last()) * 10 + (if is_digit(s.last()) {
            (s.last() - 0x30) as nat
        } else {
            0
        })
    }
}

/// Parse a boolean literal.
pub open spec fn parse_bool(s: Seq<u8>, pos: int) -> Option<(bool, int)> {
    if lit_at(s, pos, lit_true()) {
        Some((true, pos + 4))
    } else if lit_at(s, pos, lit_false()) {
        Some((false, pos + 5))
    } else {
        None
    }
}

/// Parse an optional boolean: `null` stands for absence.
pub open spec fn parse_optbool(s: Seq<u8>, pos: int) -> Option<(Option<bool>, int)> {
    if lit_at(s, pos, lit_null()) {
        Some((None, pos + 4))
    } else {
        match parse_bool(s, pos) {
            Some((b, p)) => Some((Some(b), p)),
            None => None,
        }
    }
}

/// Parse an unsigned run of one to four digits.
pub open spec fn parse_nat(s: Seq<u8>, pos: int) -> Option<(nat, int)> {
    let e = digits_end(s, pos);
    if e <= pos || e - pos > 4 {
        None
    } else {
        Some((digits_val(s.subrange(pos, e)), e))
    }
}

/// Parse a small signed integer.
pub open spec fn parse_i8(s: Seq<u8>, pos: int) -> Option<(i8, int)> {
    if lit_at(s, pos, seq![0x2du8]) {
        match parse_nat(s, pos + 1) {
            Some((n, p)) => if n <= 128 {
                Some(((-(n as int)) as i8, p))
            } else {
                None
            },
            None => None,
        }
    } else {
        match parse_nat(s, pos) {
            Some((n, p)) => if n <= 127 {
                Some((n as i8, p))
            } else {
                None
            },
            None => None,
        }
    }
}

/// Parse an optional small signed integer.
pub open spec fn parse_opti8(s: Seq<u8>, pos: int) -> Option<(Option<i8>, int)> {
    if lit_at(s, pos, lit_null()) {
        Some((None, pos + 4))
    } else {
        match parse_i8(s, pos) {
            Some((v, p)) => Some((Some(v), p)),
            None => None,
        }
    }
}

/// Parse a fixed-point tenths value with one decimal digit.
pub open spec fn parse_tenths(s: Seq<u8>, pos: int) -> Option<(int, int)> {
    let neg = lit_at(s, pos, seq![0x2du8]);
    let p1 = if neg {
        pos + 1
    } else {
        pos
    };
    match parse_nat(s, p1) {
        Some((n, e)) => if e + 1 < s.len() && s[e] == 0x2e && is_digit(s[e + 1]) {
            let v = (n * 10 + (s[e + 1] - 0x30)) as int;
            Some(
                (
                    if neg {
                        -v
                    } else {
                        v
                    },
                    e + 2,
                ),
            )
        } else {
            None
        },
        None => None,
    }
}

/// Parse an identity span: plain characters up to a closing quote. The
/// returned position stands on the quote.
pub open spec fn parse_id(s: Seq<u8>, pos: int) -> Option<(Seq<u8>, int)> {
    let e = plain_end(s, pos);
    if 0 <= pos <= s.len() && e < s.len() && s[e] == 0x22 {
        Some((s.subrange(pos, e), e))
    } else {
        None
    }
}

/// Parse a device datum.
#[verifier::opaque]
pub open spec fn parse_device(s: Seq<u8>, pos: int) -> Option<(DeviceData, int)> {
    if lit_at(s, pos, pre_light()) {
        match parse_optbool(s, pos + pre_light().len()) {
            Some((a, p1)) => if lit_at(s, p1, mid_auto_control()) {
                match parse_optbool(s, p1 + mid_auto_control().len()) {
                    Some((b, p2)) => if lit_at(s, p2, suf_obj2()) {
                        Some((DeviceData::Light { state: a, auto_control: b }, p2 + 2))
                    } else {
                        None
                    },
                    None => None,
                }
            } else {
                None
            },
            None => None,
        }
    } else if lit_at(s, pos, pre_switch()) {
        match parse_bool(s, pos + pre_switch().len()) {
            Some((b, p1)) => if lit_at(s, p1, suf_obj2()) {
                Some((DeviceData::Switch { state: b }, p1 + 2))
            } else {
                None
            },
            None => None,
        }
    } else if lit_at(s, pos, pre_lock()) {
        match parse_optbool(s, pos + pre_lock().len()) {
            Some((a, p1)) => if lit_at(s, p1, mid_add_rfid()) {
                match parse_optbool(s, p1 + mid_add_rfid().len()) {
                    Some((b, p2)) => if lit_at(s, p2, mid_clear_rfid()) {
                        match parse_optbool(s, p2 + mid_clear_rfid().len()) {
                            Some((c, p3)) => if lit_at(s, p3, suf_obj2()) {
                                Some(
                                    (
                                        DeviceData::Lock {
                                            unlock: a,
                                            add_rfid: b,
                                            clear_rfid: c,
                                        },
                                        p3 + 2,
                                    ),
                                )
                            } else {
                                None
                            },
                            None => None,
                        }
                    } else {
                        None
                    },
                    None => None,
                }
            } else {
                None
            },
            None => None,
        }
    } else if lit_at(s, pos, pre_environment()) {
        match parse_tenths(s, pos + pre_environment().len()) {
            Some((t, p1)) => if lit_at(s, p1, mid_humidity()) {
                match parse_tenths(s, p1 + mid_humidity().len()) {
                    Some((h, p2)) => if lit_at(s, p2, mid_dark()) {
                        match parse_bool(s, p2 + mid_dark().len()) {
                            Some((d, p3)) => if lit_at(s, p3, suf_obj2()) {
                                Some(
                                    (
                                        DeviceData::Environment {
                                            temperature: t as i32,
                                            humidity: h as i32,
                                            dark: d,
                                        },
                                        p3 + 2,
                                    ),
                                )
                            } else {
                                None
                            },
                            None => None,
                        }
                    } else {
                        None
                    },
                    None => None,
                }
            } else {
                None
            },
            None => None,
        }
    } else if lit_at(s, pos, pre_motion()) {
        match parse_bool(s, pos + pre_motion().len()) {
            Some((b, p1)) => if lit_at(s, p1, suf_obj2()) {
                Some((DeviceData::Motion { state: b }, p1 + 2))
            } else {
                None
            },
            None => None,
        }
    } else if lit_at(s, pos, pre_fan()) {
        match parse_optbool(s, pos + pre_fan().len()) {
            Some((a, p1)) => if lit_at(s, p1, mid_threshold_temp()) {
                match parse_opti8(s, p1 + mid_threshold_temp().len()) {
                    Some((t, p2)) => if lit_at(s, p2, mid_auto_control()) {
                        match parse_optbool(s, p2 + mid_auto_control().len()) {
                            Some((b, p3)) => if lit_at(s, p3, mid_light_state()) {
                                match parse_optbool(s, p3 + mid_light_state().len()) {
                                    Some((c, p4)) => if lit_at(s, p4, suf_obj2()) {
                                        Some(
                                            (
                                                DeviceData::Fan {
                                                    state: a,
                                                    threshold_temp: t,
                                                    auto_control: b,
                                                    light_state: c,
                                                },
                                                p4 + 2,
                                            ),
                                        )
                                    } else {
                                        None
                                    },
                                    None => None,
                                }
                            } else {
                                None
                            },
                            None => None,
                        }
                    } else {
                        None
                    },
                    None => None,
                }
            } else {
                None
            },
            None => None,
        }
    } else {
        None
    }
}

/// Parse a role-mutation body after its prefix: the identity, then the
/// closing quote and brace, consuming the whole input.
pub open spec fn parse_role_body(s: Seq<u8>, pos: int) -> Option<Seq<u8>> {
    match parse_id(s, pos) {
        Some((id, e)) => if lit_at(s, e, suf_role()) && e + 2 == s.len() {
            Some(id)
        } else {
            None
        },
        None => None,
    }
}

/// Parse a role-mutation message.
pub open spec fn parse_role_message(s: Seq<u8>) -> Option<MessageModel> {
    if lit_at(s, 0, pre_add_controller()) {
        match parse_role_body(s, pre_add_controller().len() as int) {
            Some(id) => Some(MessageModel::AddController(id)),
            None => None,
        }
    } else if lit_at(s, 0, pre_remove_controller()) {
        match parse_role_body(s, pre_remove_controller().len() as int) {
            Some(id) => Some(MessageModel::RemoveController(id)),
            None => None,
        }
    } else if lit_at(s, 0, pre_add_subscriber()) {
        match parse_role_body(s, pre_add_subscriber().len() as int) {
            Some(id) => Some(MessageModel::AddSubscriber(id)),
            None => None,
        }
    } else if lit_at(s, 0, pre_remove_subscriber()) {
        match parse_role_body(s, pre_remove_subscriber().len() as int) {
            Some(id) => Some(MessageModel::RemoveSubscriber(id)),
            None => None,
        }
    } else if lit_at(s, 0, pre_add_manager()) {
        match parse_role_body(s, pre_add_manager().len() as int) {
            Some(id) => Some(MessageModel::AddManager(id)),
            None => None,
        }
    } else if lit_at(s, 0, pre_remove_manager()) {
        match parse_role_body(s, pre_remove_manager().len() as int) {
            Some(id) => Some(MessageModel::RemoveManager(id)),
            None => None,
        }
    } else {
        None
    }
}

/// Parse an update or control message.
pub open spec fn parse_data_message(s: Seq<u8>) -> Option<MessageModel> {
    if lit_at(s, 0, pre_update()) {
        match parse_device(s, pre_update().len() as int) {
            Some((d, p)) => if lit_at(s, p, suf_brace()) && p + 1 == s.len() {
                Some(MessageModel::Update(d))
            } else {
                None
            },
            None => None,
        }
    } else if lit_at(s, 0, pre_control()) {
        match parse_device(s, pre_control().len() as int) {
            Some((d, p)) => if lit_at(s, p, suf_brace()) && p + 1 == s.len() {
                Some(MessageModel::Control(d))
            } else {
                None
            },
            None => None,
        }
    } else {
        None
    }
}

/// Parse a whole message: one externally tagged variant spanning the
/// whole input. The variant tags are mutually exclusive, so the two
/// groups can be tried in turn.
pub open spec fn parse_message(s: Seq<u8>) -> Option<MessageModel> {
    match parse_role_message(s) {
        Some(m) => Some(m),
        None => parse_data_message(s),
    }
}


/// Whether `lit` stands at `pos` in `s`.
fn lit_check(s: &[u8], pos: usize, lit: &Vec<u8>) -> (r: bool)
    requires
        pos <= s@.len(),
    ensures
        r == lit_at(s@, pos as int, lit@),
{
    if s.len() - pos < lit.len() {
        return false;
    }
    let mut i: usize = 0;
    while i < lit.len()
        invariant
            i <= lit@.len(),
            pos + lit@.len() <= s@.len(),
            s@.len() <= usize::MAX,
            forall|j: int| 0 <= j < i ==> s@[pos + j] == lit@[j],
        decreases lit@.len() - i,
    {
        if s[pos + i] != lit[i] {
            proof {
                assert(s@.subrange(pos as int, pos + lit@.len())[i as int] != lit@[i as int]);
            }
            return false;
        }
        i = i + 1;
    }
    proof {
        assert(s@.subrange(pos as int, pos + lit@.len()) =~= lit@);
    }
    true
}

/// The end of the digit run starting at `pos`.
fn scan_digits(s: &[u8], pos: usize) -> (e: usize)
    requires
        pos <= s@.len(),
    ensures
        e == digits_end(s@, pos as int),
        pos <= e <= s@.len(),
{
    let mut i: usize = pos;
    while i < s.len() && 0x30 <= s[i] && s[i] <= 0x39
        invariant
            pos <= i <= s@.len(),
            digits_end(s@, pos as int) == digits_end(s@, i as int),
        decreases s@.len() - i,
    {
        i = i + 1;
    }
    i
}

/// The end of the plain-character run starting at `pos`.
fn scan_plain(s: &[u8], pos: usize) -> (e: usize)
    requires
        pos <= s@.len(),
    ensures
        e == plain_end(s@, pos as int),
        pos <= e <= s@.len(),
{
    let mut i: usize = pos;
    while i < s.len() && 0x20 <= s[i] && s[i] <= 0x7e && s[i] != 0x22 && s[i] != 0x5c
        invariant
            pos <= i <= s@.len(),
            plain_end(s@, pos as int) == plain_end(s@, i as int),
        decreases s@.len() - i,
    {
        i = i + 1;
    }
    i
}

/// The number denoted by the digits `s[from .. to]`.
fn nat_value(s: &[u8], from: usize, to: usize) -> (n: u32)
    requires
        from <= to <= s@.len(),
        to - from <= 4,
        forall|j: int| from <= j < to ==> is_digit(s@[j]),
    ensures
        n == digits_val(s@.subrange(from as int, to as int)),
        n <= 9999,
{
    let mut val: u32 = 0;
    let mut i: usize = from;
    proof {
        assert(s@.subrange(from as int, from as int) =~= Seq::<u8>::empty());
    }
    while i < to
        invariant
            from <= i <= to <= s@.len(),
            to - from <= 4,
            forall|j: int| from <= j < to ==> is_digit(s@[j]),
            val == digits_val(s@.subrange(from as int, i as int)),
            val < pow10((i - from) as nat),
        decreases to - i,
    {
        let d = s[i];
        proof {
            assert(s@.subrange(from as int, i as int + 1).drop_last() =~= s@.subrange(
                from as int,
                i as int,
            ));
            assert(s@.subrange(from as int, i as int + 1).last() == s@[i as int]);
            lemma_pow10_small((i - from) as nat);
            lemma_pow10_small((i + 1 - from) as nat);
        }
        val = val * 10 + ((d - 0x30) as u32);
        i = i + 1;
    }
    proof {
        lemma_pow10_small((to - from) as nat);
    }
    val
}

/// The small powers of ten, spelled out.
proof fn lemma_pow10_small(k: nat)
    requires
        k <= 4,
    ensures
        k == 0 ==> pow10(k) == 1,
        k == 1 ==> pow10(k) == 10,
        k == 2 ==> pow10(k) == 100,
        k == 3 ==> pow10(k) == 1000,
        k == 4 ==> pow10(k) == 10000,
{
    assert(pow10(0) == 1);
    assert(pow10(1) == 10);
    assert(pow10(2) == 100);
    assert(pow10(3) == 1000);
    assert(pow10(4) == 10000);
}

/// Ten to the `n`th power.
pub open spec fn pow10(n: nat) -> nat
    decreases n,
{
    if n == 0 {
        1
    } else {
        10 * pow10((n - 1) as nat)
    }
}

/// Parse a boolean literal.
fn parse_bool_at(s: &[u8], pos: usize) -> (r: Option<(bool, usize)>)
    requires
        pos <= s@.len(),
    ensures
        (match r {
            Some((b, p)) => parse_bool(s@, pos as int) == Some((b, p as int)) && p <= s@.len(),
            None => parse_bool(s@, pos as int) is None,
        }),
{
    let _total = s.len();
    let t = lit_true_bytes();
    if lit_check(s, pos, &t) {
        return Some((true, pos + 4));
    }
    let f = lit_false_bytes();
    if lit_check(s, pos, &f) {
        return Some((false, pos + 5));
    }
    None
}

/// Parse an optional boolean.
fn parse_optbool_at(s: &[u8], pos: usize) -> (r: Option<(Option<bool>, usize)>)
    requires
        pos <= s@.len(),
    ensures
        (match r {
            Some((b, p)) => parse_optbool(s@, pos as int) == Some((b, p as int)) && p <= s@.len(),
            None => parse_optbool(s@, pos as int) is None,
        }),
{
    let _total = s.len();
    let n = lit_null_bytes();
    if lit_check(s, pos, &n) {
        return Some((None, pos + 4));
    }
    match parse_bool_at(s, pos) {
        Some((b, p)) => Some((Some(b), p)),
        None => None,
    }
}

/// Parse an unsigned run of one to four digits.
fn parse_nat_at(s: &[u8], pos: usize) -> (r: Option<(u32, usize)>)
    requires
        pos <= s@.len(),
    ensures
        (match r {
            Some((n, p)) => parse_nat(s@, pos as int) == Some((n as nat, p as int)) && p
                <= s@.len() && n <= 9999,
            None => parse_nat(s@, pos as int) is None,
        }),
{
    let e = scan_digits(s, pos);
    if e <= pos || e - pos > 4 {
        return None;
    }
    proof {
        lemma_digits_end_digits(s@, pos as int);
    }
    let n = nat_value(s, pos, e);
    Some((n, e))
}

/// Parse a small signed integer.
fn parse_i8_at(s: &[u8], pos: usize) -> (r: Option<(i8, usize)>)
    requires
        pos <= s@.len(),
    ensures
        (match r {
            Some((v, p)) => parse_i8(s@, pos as int) == Some((v, p as int)) && p <= s@.len(),
            None => parse_i8(s@, pos as int) is None,
        }),
{
    let _total = s.len();
    let minus = minus_bytes();
    if lit_check(s, pos, &minus) {
        match parse_nat_at(s, pos + 1) {
            Some((n, p)) => {
                if n <= 128 {
                    let v: i8 = (-(n as i32)) as i8;
                    Some((v, p))
                } else {
                    None
                }
            },
            None => None,
        }
    } else {
        match parse_nat_at(s, pos) {
            Some((n, p)) => {
                if n <= 127 {
                    Some((n as i8, p))
                } else {
                    None
                }
            },
            None => None,
        }
    }
}

/// The minus sign as a vector.
fn minus_bytes() -> (r: Vec<u8>)
    ensures
        r@ == seq![0x2du8],
{
    let mut v: Vec<u8> = Vec::new();
    v.push(0x2du8);
    assert(v@ =~= seq![0x2du8]);
    v
}

/// Parse an optional small signed integer.
fn parse_opti8_at(s: &[u8], pos: usize) -> (r: Option<(Option<i8>, usize)>)
    requires
        pos <= s@.len(),
    ensures
        (match r {
            Some((v, p)) => parse_opti8(s@, pos as int) == Some((v, p as int)) && p <= s@.len(),
            None => parse_opti8(s@, pos as int) is None,
        }),
{
    let _total = s.len();
    let n = lit_null_bytes();
    if lit_check(s, pos, &n) {
        return Some((None, pos + 4));
    }
    match parse_i8_at(s, pos) {
        Some((v, p)) => Some((Some(v), p)),
        None => None,
    }
}

/// Parse a fixed-point tenths value.
fn parse_tenths_at(s: &[u8], pos: usize) -> (r: Option<(i32, usize)>)
    requires
        pos <= s@.len(),
    ensures
        (match r {
            Some((v, p)) => parse_tenths(s@, pos as int) == Some((v as int, p as int)) && p
                <= s@.len(),
            None => parse_tenths(s@, pos as int) is None,
        }),
{
    let total = s.len();
    let minus = minus_bytes();
    let neg = lit_check(s, pos, &minus);
    let p1 = if neg {
        pos + 1
    } else {
        pos
    };
    match parse_nat_at(s, p1) {
        Some((n, e)) => {
            if e < total && total - e > 1 && s[e] == 0x2e && 0x30 <= s[e + 1] && s[e + 1]
                <= 0x39 {
                let v: i32 = (n as i32) * 10 + ((s[e + 1] - 0x30) as i32);
                if neg {
                    Some((-v, e + 2))
                } else {
                    Some((v, e + 2))
                }
            } else {
                None
            }
        },
        None => None,
    }
}

/// Parse an identity span up to its closing quote.
fn parse_id_at(s: &[u8], pos: usize) -> (r: Option<(Vec<u8>, usize)>)
    requires
        pos <= s@.len(),
    ensures
        (match r {
            Some((id, p)) => parse_id(s@, pos as int) == Some((id@, p as int)) && p <= s@.len(),
            None => parse_id(s@, pos as int) is None,
        }),
{
    let e = scan_plain(s, pos);
    if e < s.len() && s[e] == 0x22 {
        let id = crate::bytes::subvec(s, pos, e);
        Some((id, e))
    } else {
        None
    }
}

/// Every byte of a digit run is a digit.
proof fn lemma_digits_end_digits(s: Seq<u8>, pos: int)
    requires
        0 <= pos <= s.len(),
    ensures
        pos <= digits_end(s, pos) <= s.len(),
        forall|j: int| pos <= j < digits_end(s, pos) ==> is_digit(s[j]),
    decreases s.len() - pos,
{
    if pos < s.len() && is_digit(s[pos]) {
        lemma_digits_end_digits(s, pos + 1);
    }
}


/// Parse a device datum.
fn parse_device_at(s: &[u8], pos: usize) -> (r: Option<(DeviceData, usize)>)
    requires
        pos <= s@.len(),
    ensures
        (match r {
            Some((d, p)) => parse_device(s@, pos as int) == Some((d, p as int)) && p <= s@.len(),
            None => parse_device(s@, pos as int) is None,
        }),
{
    proof {
        reveal(parse_device);
    }
    let _total = s.len();
    let lit = pre_light_bytes();
    if lit_check(s, pos, &lit) {
        let q = pos + lit.len();
        match parse_optbool_at(s, q) {
            Some((a, p1)) => {
                let lit = mid_auto_control_bytes();
                if lit_check(s, p1, &lit) {
                    match parse_optbool_at(s, p1 + lit.len()) {
                        Some((b, p2)) => {
                            let suf = suf_obj2_bytes();
                            if lit_check(s, p2, &suf) {
                                return Some(
                                    (DeviceData::Light { state: a, auto_control: b }, p2 + 2),
                                );
                            }
                            return None;
                        },
                        None => {
                            return None;
                        },
                    }
                }
                return None;
            },
            None => {
                return None;
            },
        }
    }
    let lit = pre_switch_bytes();
    if lit_check(s, pos, &lit) {
        let q = pos + lit.len();
        match parse_bool_at(s, q) {
            Some((b, p1)) => {
                let suf = suf_obj2_bytes();
                if lit_check(s, p1, &suf) {
                    return Some((DeviceData::Switch { state: b }, p1 + 2));
                }
                return None;
            },
            None => {
                return None;
            },
        }
    }
    let lit = pre_lock_bytes();
    if lit_check(s, pos, &lit) {
        let q = pos + lit.len();
        match parse_optbool_at(s, q) {
            Some((a, p1)) => {
                let lit = mid_add_rfid_bytes();
                if lit_check(s, p1, &lit) {
                    match parse_optbool_at(s, p1 + lit.len()) {
                        Some((b, p2)) => {
                            let lit = mid_clear_rfid_bytes();
                            if lit_check(s, p2, &lit) {
                                match parse_optbool_at(s, p2 + lit.len()) {
                                    Some((c, p3)) => {
                                        let suf = suf_obj2_bytes();
                                        if lit_check(s, p3, &suf) {
                                            return Some(
                                                (
                                                    DeviceData::Lock {
                                                        unlock: a,
                                                        add_rfid: b,
                                                        clear_rfid: c,
                                                    },
                                                    p3 + 2,
                                                ),
                                            );
                                        }
                                        return None;
                                    },
                                    None => {
                                        return None;
                                    },
                                }
                            }
                            return None;
                        },
                        None => {
                            return None;
                        },
                    }
                }
                return None;
            },
            None => {
                return None;
            },
        }
    }
    let lit = pre_environment_bytes();
    if lit_check(s, pos, &lit) {
        let q = pos + lit.len();
        match parse_tenths_at(s, q) {
            Some((t, p1)) => {
                let lit = mid_humidity_bytes();
                if lit_check(s, p1, &lit) {
                    match parse_tenths_at(s, p1 + lit.len()) {
                        Some((h, p2)) => {
                            let lit = mid_dark_bytes();
                            if lit_check(s, p2, &lit) {
                                match parse_bool_at(s, p2 + lit.len()) {
                                    Some((d, p3)) => {
                                        let suf = suf_obj2_bytes();
                                        if lit_check(s, p3, &suf) {
                                            return Some(
                                                (
                                                    DeviceData::Environment {
                                                        temperature: t,
                                                        humidity: h,
                                                        dark: d,
                                                    },
                                                    p3 + 2,
                                                ),
                                            );
                                        }
                                        return None;
                                    },
                                    None => {
                                        return None;
                                    },
                                }
                            }
                            return None;
                        },
                        None => {
                            return None;
                        },
                    }
                }
                return None;
            },
            None => {
                return None;
            },
        }
    }
    let lit = pre_motion_bytes();
    if lit_check(s, pos, &lit) {
        let q = pos + lit.len();
        match parse_bool_at(s, q) {
            Some((b, p1)) => {
                let suf = suf_obj2_bytes();
                if lit_check(s, p1, &suf) {
                    return Some((DeviceData::Motion { state: b }, p1 + 2));
                }
                return None;
            },
            None => {
                return None;
            },
        }
    }
    let lit = pre_fan_bytes();
    if lit_check(s, pos, &lit) {
        let q = pos + lit.len();
        match parse_optbool_at(s, q) {
            Some((a, p1)) => {
                let lit = mid_threshold_temp_bytes();
                if lit_check(s, p1, &lit) {
                    match parse_opti8_at(s, p1 + lit.len()) {
                        Some((t, p2)) => {
                            let lit = mid_auto_control_bytes();
                            if lit_check(s, p2, &lit) {
                                match parse_optbool_at(s, p2 + lit.len()) {
                                    Some((b, p3)) => {
                                        let lit = mid_light_state_bytes();
                                        if lit_check(s, p3, &lit) {
                                            match parse_optbool_at(s, p3 + lit.len()) {
                                                Some((c, p4)) => {
                                                    let suf = suf_obj2_bytes();
                                                    if lit_check(s, p4, &suf) {
                                                        return Some(
                                                            (
                                                                DeviceData::Fan {
                                                                    state: a,
                                                                    threshold_temp: t,
                                                                    auto_control: b,
                                                                    light_state: c,
                                                                },
                                                                p4 + 2,
                                                            ),
                                                        );
                                                    }
                                                    return None;
                                                },
                                                None => {
                                                    return None;
                                                },
                                            }
                                        }
                                        return None;
                                    },
                                    None => {
                                        return None;
                                    },
                                }
                            }
                            return None;
                        },
                        None => {
                            return None;
                        },
                    }
                }
                return None;
            },
            None => {
                return None;
            },
        }
    }
    None
}

/// Parse a role-mutation body: the identity and the closing `"}`.
fn parse_role_body_at(s: &[u8], pos: usize) -> (r: Option<Vec<u8>>)
    requires
        pos <= s@.len(),
    ensures
        (match r {
            Some(id) => parse_role_body(s@, pos as int) == Some(id@),
            None => parse_role_body(s@, pos as int) is None,
        }),
{
    let total = s.len();
    match parse_id_at(s, pos) {
        Some((id, e)) => {
            let suf = suf_role_bytes();
            if lit_check(s, e, &suf) && total - e == 2 {
                Some(id)
            } else {
                None
            }
        },
        None => None,
    }
}

impl Message {
    /// Decode a message from JSON wire bytes: exactly what the pure
    /// parser accepts, and nothing else.
    /// Decode a message from JSON wire bytes: exactly what the pure
    /// parser accepts, and nothing else.
    pub fn from_json(wire: &[u8]) -> (r: Option<Message>)
        ensures
            (match r {
                Some(m) => parse_message(wire@) == Some(m@),
                None => parse_message(wire@) is None,
            }),
    {
        match Self::from_json_role(wire) {
            Some(m) => Some(m),
            None => Self::from_json_data(wire),
        }
    }

    /// Decode a role-mutation message.
    #[verifier::spinoff_prover]
    #[verifier::rlimit(50)]
    fn from_json_role(wire: &[u8]) -> (r: Option<Message>)
        ensures
            (match r {
                Some(m) => parse_role_message(wire@) == Some(m@),
                None => parse_role_message(wire@) is None,
            }),
    {
        let lit = pre_add_controller_bytes();
        if lit_check(wire, 0, &lit) {
            return match parse_role_body_at(wire, lit.len()) {
                Some(id) => Some(Message::AddController(id)),
                None => None,
            };
        }
        let lit = pre_remove_controller_bytes();
        if lit_check(wire, 0, &lit) {
            return match parse_role_body_at(wire, lit.len()) {
                Some(id) => Some(Message::RemoveController(id)),
                None => None,
            };
        }
        let lit = pre_add_subscriber_bytes();
        if lit_check(wire, 0, &lit) {
            return match parse_role_body_at(wire, lit.len()) {
                Some(id) => Some(Message::AddSubscriber(id)),
                None => None,
            };
        }
        let lit = pre_remove_subscriber_bytes();
        if lit_check(wire, 0, &lit) {
            return match parse_role_body_at(wire, lit.len()) {
                Some(id) => Some(Message::RemoveSubscriber(id)),
                None => None,
            };
        }
        let lit = pre_add_manager_bytes();
        if lit_check(wire, 0, &lit) {
            return match parse_role_body_at(wire, lit.len()) {
                Some(id) => Some(Message::AddManager(id)),
                None => None,
            };
        }
        let lit = pre_remove_manager_bytes();
        if lit_check(wire, 0, &lit) {
            return match parse_role_body_at(wire, lit.len()) {
                Some(id) => Some(Message::RemoveManager(id)),
                None => None,
            };
        }
        None
    }

    /// Decode an update or control message.
    #[verifier::spinoff_prover]
    fn from_json_data(wire: &[u8]) -> (r: Option<Message>)
        ensures
            (match r {
                Some(m) => parse_data_message(wire@) == Some(m@),
                None => parse_data_message(wire@) is None,
            }),
    {
        let lit = pre_update_bytes();
        if lit_check(wire, 0, &lit) {
            return match parse_device_at(wire, lit.len()) {
                Some((d, p)) => {
                    let suf = suf_brace_bytes();
                    if lit_check(wire, p, &suf) && wire.len() - p == 1 {
                        Some(Message::Update(d))
                    } else {
                        None
                    }
                },
                None => None,
            };
        }
        let lit = pre_control_bytes();
        if lit_check(wire, 0, &lit) {
            return match parse_device_at(wire, lit.len()) {
                Some((d, p)) => {
                    let suf = suf_brace_bytes();
                    if lit_check(wire, p, &suf) && wire.len() - p == 1 {
                        Some(Message::Control(d))
                    } else {
                        None
                    }
                },
                None => None,
            };
        }
        None
    }
}


// --- the decoder inverts the encoder ------------------------------------
/// `lit` does not stand at `pos` if some byte differs.
proof fn lemma_differs(s: Seq<u8>, pos: int, lit: Seq<u8>, k: int)
    requires
        0 <= pos,
        0 <= k < lit.len(),
        pos + k < s.len(),
        s[pos + k] != lit[k],
    ensures
        !lit_at(s, pos, lit),
{
    if lit_at(s, pos, lit) {
        assert(s.subrange(pos, pos + lit.len())[k] == lit[k]);
    }
}

/// A piece of a known span of `s` is itself a known span of `s`.
proof fn lemma_sub_at(s: Seq<u8>, pos: int, whole: Seq<u8>, off: int, part: Seq<u8>)
    requires
        0 <= pos,
        pos + whole.len() <= s.len(),
        s.subrange(pos, pos + whole.len()) == whole,
        0 <= off,
        off + part.len() <= whole.len(),
        whole.subrange(off, off + part.len()) == part,
    ensures
        s.subrange(pos + off, pos + off + part.len()) == part,
        lit_at(s, pos + off, part),
{
    assert(s.subrange(pos + off, pos + off + part.len()) =~= whole.subrange(
        off,
        off + part.len(),
    ));
}

/// Every byte of a decimal rendering is a digit.
proof fn lemma_digits_of_are_digits(n: nat)
    ensures
        forall|i: int| 0 <= i < digits_of(n).len() ==> is_digit(#[trigger] digits_of(n)[i]),
        digits_of(n).len() >= 1,
    decreases n,
{
    if n >= 10 {
        lemma_digits_of_are_digits(n / 10);
    }
}

/// A value within four digits renders within four bytes.
proof fn lemma_digits_of_len(n: nat)
    ensures
        n < 10 ==> digits_of(n).len() == 1,
        n < 100 ==> digits_of(n).len() <= 2,
        n < 1000 ==> digits_of(n).len() <= 3,
        n <= 9999 ==> digits_of(n).len() <= 4,
    decreases n,
{
    if n >= 10 {
        lemma_digits_of_len(n / 10);
    }
}

/// Reading back a decimal rendering yields the value.
proof fn lemma_digits_val_of(n: nat)
    ensures
        digits_val(digits_of(n)) == n,
    decreases n,
{
    if n < 10 {
        assert(digits_of(n).drop_last() =~= Seq::<u8>::empty());
        assert(digits_val(Seq::<u8>::empty()) == 0);
        assert(digits_of(n).last() == (0x30 + n) as u8);
        assert(is_digit((0x30 + n) as u8));
        assert(((0x30 + n) as u8 - 0x30) as nat == n);
    } else {
        lemma_digits_val_of(n / 10);
        assert(digits_of(n).drop_last() =~= digits_of(n / 10));
        assert(digits_of(n).last() == (0x30 + (n % 10)) as u8);
        assert(is_digit((0x30 + (n % 10)) as u8));
    }
}

/// The digit run ends exactly where the digits end.
proof fn lemma_digits_end_at(s: Seq<u8>, pos: int, e: int)
    requires
        0 <= pos <= e <= s.len(),
        forall|j: int| pos <= j < e ==> is_digit(#[trigger] s[j]),
        e == s.len() || !is_digit(s[e]),
    ensures
        digits_end(s, pos) == e,
    decreases e - pos,
{
    if pos < e {
        lemma_digits_end_at(s, pos + 1, e);
    }
}

/// The plain run ends exactly where the plain characters end.
proof fn lemma_plain_end_at(s: Seq<u8>, pos: int, e: int)
    requires
        0 <= pos <= e <= s.len(),
        forall|j: int| pos <= j < e ==> json_plain(#[trigger] s[j]),
        e == s.len() || !json_plain(s[e]),
    ensures
        plain_end(s, pos) == e,
    decreases e - pos,
{
    if pos < e {
        lemma_plain_end_at(s, pos + 1, e);
    }
}

/// A rendered number parses back to itself.
proof fn lemma_parse_nat_exact(s: Seq<u8>, pos: int, n: nat)
    requires
        0 <= pos,
        pos + digits_of(n).len() <= s.len(),
        s.subrange(pos, pos + digits_of(n).len()) == digits_of(n),
        n <= 9999,
        pos + digits_of(n).len() == s.len() || !is_digit(s[pos + digits_of(n).len()]),
    ensures
        parse_nat(s, pos) == Some((n, pos + digits_of(n).len())),
{
    let d = digits_of(n);
    lemma_digits_of_are_digits(n);
    lemma_digits_of_len(n);
    assert forall|j: int| pos <= j < pos + d.len() implies is_digit(#[trigger] s[j]) by {
        assert(s.subrange(pos, pos + d.len())[j - pos] == d[j - pos]);
    }
    lemma_digits_end_at(s, pos, pos + d.len());
    lemma_digits_val_of(n);
}

/// A rendered boolean parses back to itself.
proof fn lemma_parse_bool_exact(s: Seq<u8>, pos: int, b: bool)
    requires
        0 <= pos,
        pos + bool_json(b).len() <= s.len(),
        s.subrange(pos, pos + bool_json(b).len()) == bool_json(b),
    ensures
        parse_bool(s, pos) == Some((b, pos + bool_json(b).len())),
{
    if b {
    } else {
        assert(s[pos] == 0x66) by {
            assert(s.subrange(pos, pos + 5)[0] == lit_false()[0]);
        }
        lemma_differs(s, pos, lit_true(), 0);
    }
}

/// A rendered optional boolean parses back to itself.
proof fn lemma_parse_optbool_exact(s: Seq<u8>, pos: int, v: Option<bool>)
    requires
        0 <= pos,
        pos + optbool_json(v).len() <= s.len(),
        s.subrange(pos, pos + optbool_json(v).len()) == optbool_json(v),
    ensures
        parse_optbool(s, pos) == Some((v, pos + optbool_json(v).len())),
{
    match v {
        None => {},
        Some(b) => {
            assert(s[pos] == (if b { 0x74u8 } else { 0x66u8 })) by {
                assert(s.subrange(pos, pos + optbool_json(v).len())[0] == optbool_json(v)[0]);
            }
            lemma_differs(s, pos, lit_null(), 0);
            lemma_parse_bool_exact(s, pos, b);
        },
    }
}

/// A rendered optional small integer parses back to itself when the
/// following byte is not a digit.
proof fn lemma_parse_opti8_exact(s: Seq<u8>, pos: int, v: Option<i8>)
    requires
        0 <= pos,
        pos + opti8_json(v).len() <= s.len(),
        s.subrange(pos, pos + opti8_json(v).len()) == opti8_json(v),
        pos + opti8_json(v).len() == s.len() || !is_digit(s[pos + opti8_json(v).len()]),
    ensures
        parse_opti8(s, pos) == Some((v, pos + opti8_json(v).len())),
{
    match v {
        None => {},
        Some(x) => {
            let w = opti8_json(v);
            if x < 0 {
                let m = (-(x as int)) as nat;
                assert(w == seq![0x2du8] + digits_of(m));
                assert(s[pos] == 0x2d) by {
                    assert(s.subrange(pos, pos + w.len())[0] == w[0]);
                }
                lemma_differs(s, pos, lit_null(), 0);
                assert(s.subrange(pos, pos + 1) =~= seq![0x2du8]);
                assert(lit_at(s, pos, seq![0x2du8]));
                assert(w.subrange(1, 1 + digits_of(m).len() as int) =~= digits_of(m));
                lemma_sub_at(s, pos, w, 1, digits_of(m));
                lemma_parse_nat_exact(s, pos + 1, m);
                assert(m <= 128);
                assert((-(m as int)) as i8 == x);
            } else {
                let m = x as nat;
                assert(w == digits_of(m));
                lemma_digits_of_are_digits(m);
                assert(s[pos] == w[0]) by {
                    assert(s.subrange(pos, pos + w.len())[0] == w[0]);
                }
                assert(is_digit(s[pos]));
                lemma_differs(s, pos, lit_null(), 0);
                lemma_differs(s, pos, seq![0x2du8], 0);
                lemma_parse_nat_exact(s, pos, m);
                assert(m <= 127);
            }
        },
    }
}

/// A rendered tenths value parses back to itself.
#[verifier::rlimit(60)]
proof fn lemma_parse_tenths_exact(s: Seq<u8>, pos: int, v: int)
    requires
        0 <= pos,
        -9999 <= v <= 9999,
        pos + tenths_json(v).len() <= s.len(),
        s.subrange(pos, pos + tenths_json(v).len()) == tenths_json(v),
    ensures
        parse_tenths(s, pos) == Some((v, pos + tenths_json(v).len())),
{
    let w = tenths_json(v);
    let m = if v < 0 { -v } else { v };
    let d = digits_of((m / 10) as nat);
    lemma_digits_of_are_digits((m / 10) as nat);
    if v < 0 {
        assert(w == seq![0x2du8] + d + seq![0x2eu8] + seq![(0x30 + (m % 10)) as u8]);
        assert(s[pos] == 0x2d) by {
            assert(s.subrange(pos, pos + w.len())[0] == w[0]);
        }
        assert(s.subrange(pos, pos + 1) =~= seq![0x2du8]);
        assert(lit_at(s, pos, seq![0x2du8]));
        assert(w.subrange(1, 1 + d.len() as int) =~= d);
        lemma_sub_at(s, pos, w, 1, d);
        assert(s[pos + 1 + d.len()] == 0x2e) by {
            assert(s.subrange(pos, pos + w.len())[1 + d.len() as int] == w[1 + d.len() as int]);
            assert(w[1 + d.len() as int] == 0x2e);
        }
        lemma_parse_nat_exact(s, pos + 1, (m / 10) as nat);
        assert(s[pos + 1 + d.len() + 1] == (0x30 + (m % 10)) as u8) by {
            assert(s.subrange(pos, pos + w.len())[1 + d.len() as int + 1] == w[1 + d.len() as int + 1]);
            assert(w[1 + d.len() as int + 1] == (0x30 + (m % 10)) as u8);
        }
        assert(is_digit((0x30 + (m % 10)) as u8));
        assert((m / 10) * 10 + (m % 10) == m);
    } else {
        assert(w == d + seq![0x2eu8] + seq![(0x30 + (m % 10)) as u8]);
        assert(s[pos] == w[0]) by {
            assert(s.subrange(pos, pos + w.len())[0] == w[0]);
        }
        assert(is_digit(s[pos]));
        lemma_differs(s, pos, seq![0x2du8], 0);
        assert(w.subrange(0, d.len() as int) =~= d);
        lemma_sub_at(s, pos, w, 0, d);
        assert(s[pos + d.len()] == 0x2e) by {
            assert(s.subrange(pos, pos + w.len())[d.len() as int] == w[d.len() as int]);
            assert(w[d.len() as int] == 0x2e);
        }
        lemma_parse_nat_exact(s, pos, (m / 10) as nat);
        assert(s[pos + d.len() + 1] == (0x30 + (m % 10)) as u8) by {
            assert(s.subrange(pos, pos + w.len())[d.len() as int + 1] == w[d.len() as int + 1]);
            assert(w[d.len() as int + 1] == (0x30 + (m % 10)) as u8);
        }
        assert(is_digit((0x30 + (m % 10)) as u8));
        assert((m / 10) * 10 + (m % 10) == m);
    }
}

/// A rendered identity parses back to itself up to its closing quote.
proof fn lemma_parse_id_exact(s: Seq<u8>, pos: int, id: Seq<u8>)
    requires
        0 <= pos,
        pos + id.len() < s.len(),
        s.subrange(pos, pos + id.len()) == id,
        id_wf(id),
        s[pos + id.len()] == 0x22,
    ensures
        parse_id(s, pos) == Some((id, pos + id.len())),
{
    assert forall|j: int| pos <= j < pos + id.len() implies json_plain(#[trigger] s[j]) by {
        assert(s.subrange(pos, pos + id.len())[j - pos] == id[j - pos]);
    }
    lemma_plain_end_at(s, pos, pos + id.len());
}


/// A rendered `Light` datum parses back to itself.
#[verifier::rlimit(100)]
#[verifier::spinoff_prover]
proof fn lemma_parse_device_light(s: Seq<u8>, pos: int, d: DeviceData)
    requires
        0 <= pos,
        dev_wf(d),
        d matches DeviceData::Light { .. },
        pos + dev_json(d).len() <= s.len(),
        s.subrange(pos, pos + dev_json(d).len()) == dev_json(d),
    ensures
        parse_device(s, pos) == Some((d, pos + dev_json(d).len())),
{
    reveal(parse_device);
    let w = dev_json(d);
    assert forall|k: int| 0 <= k < w.len() implies s[pos + k] == w[k] by {
        assert(s.subrange(pos, pos + w.len())[k] == w[k]);
    }
    if let DeviceData::Light { state, auto_control } = d {
            let o1 = pre_light().len() as int;
            let o2 = o1 + optbool_json(state).len() as int;
            let o3 = o2 + mid_auto_control().len() as int;
            let o4 = o3 + optbool_json(auto_control).len() as int;
            assert(w.subrange(0, o1) =~= pre_light());
            lemma_sub_at(s, pos, w, 0, pre_light());
            assert(w.subrange(o1, o2) =~= optbool_json(state));
            lemma_sub_at(s, pos, w, o1, optbool_json(state));
            lemma_parse_optbool_exact(s, pos + o1, state);
            assert(w.subrange(o2, o3) =~= mid_auto_control());
            lemma_sub_at(s, pos, w, o2, mid_auto_control());
            assert(w.subrange(o3, o4) =~= optbool_json(auto_control));
            lemma_sub_at(s, pos, w, o3, optbool_json(auto_control));
            lemma_parse_optbool_exact(s, pos + o3, auto_control);
            assert(w.subrange(o4, o4 + 2) =~= suf_obj2());
            lemma_sub_at(s, pos, w, o4, suf_obj2());
    }
}

/// A rendered `Switch` datum parses back to itself.
#[verifier::rlimit(100)]
#[verifier::spinoff_prover]
proof fn lemma_parse_device_switch(s: Seq<u8>, pos: int, d: DeviceData)
    requires
        0 <= pos,
        dev_wf(d),
        d matches DeviceData::Switch { .. },
        pos + dev_json(d).len() <= s.len(),
        s.subrange(pos, pos + dev_json(d).len()) == dev_json(d),
    ensures
        parse_device(s, pos) == Some((d, pos + dev_json(d).len())),
{
    reveal(parse_device);
    let w = dev_json(d);
    assert forall|k: int| 0 <= k < w.len() implies s[pos + k] == w[k] by {
        assert(s.subrange(pos, pos + w.len())[k] == w[k]);
    }
    if let DeviceData::Switch { state } = d {
            assert(w.len() > 4);
            assert(s[pos + 2] == w[2]);
            assert(s[pos + 3] == w[3]);
            lemma_differs(s, pos, pre_light(), 2);
            let o1 = pre_switch().len() as int;
            let o2 = o1 + bool_json(state).len() as int;
            assert(w.subrange(0, o1) =~= pre_switch());
            lemma_sub_at(s, pos, w, 0, pre_switch());
            assert(w.subrange(o1, o2) =~= bool_json(state));
            lemma_sub_at(s, pos, w, o1, bool_json(state));
            lemma_parse_bool_exact(s, pos + o1, state);
            assert(w.subrange(o2, o2 + 2) =~= suf_obj2());
            lemma_sub_at(s, pos, w, o2, suf_obj2());
    }
}

/// A rendered `Lock` datum parses back to itself.
#[verifier::rlimit(100)]
#[verifier::spinoff_prover]
proof fn lemma_parse_device_lock(s: Seq<u8>, pos: int, d: DeviceData)
    requires
        0 <= pos,
        dev_wf(d),
        d matches DeviceData::Lock { .. },
        pos + dev_json(d).len() <= s.len(),
        s.subrange(pos, pos + dev_json(d).len()) == dev_json(d),
    ensures
        parse_device(s, pos) == Some((d, pos + dev_json(d).len())),
{
    reveal(parse_device);
    let w = dev_json(d);
    assert forall|k: int| 0 <= k < w.len() implies s[pos + k] == w[k] by {
        assert(s.subrange(pos, pos + w.len())[k] == w[k]);
    }
    if let DeviceData::Lock { unlock, add_rfid, clear_rfid } = d {
            assert(w.len() > 4);
            assert(s[pos + 2] == w[2]);
            assert(s[pos + 3] == w[3]);
            lemma_differs(s, pos, pre_light(), 3);
            lemma_differs(s, pos, pre_switch(), 2);
            let o1 = pre_lock().len() as int;
            let o2 = o1 + optbool_json(unlock).len() as int;
            let o3 = o2 + mid_add_rfid().len() as int;
            let o4 = o3 + optbool_json(add_rfid).len() as int;
            let o5 = o4 + mid_clear_rfid().len() as int;
            let o6 = o5 + optbool_json(clear_rfid).len() as int;
            assert(w.subrange(0, o1) =~= pre_lock());
            lemma_sub_at(s, pos, w, 0, pre_lock());
            assert(w.subrange(o1, o2) =~= optbool_json(unlock));
            lemma_sub_at(s, pos, w, o1, optbool_json(unlock));
            lemma_parse_optbool_exact(s, pos + o1, unlock);
            assert(w.subrange(o2, o3) =~= mid_add_rfid());
            lemma_sub_at(s, pos, w, o2, mid_add_rfid());
            assert(w.subrange(o3, o4) =~= optbool_json(add_rfid));
            lemma_sub_at(s, pos, w, o3, optbool_json(add_rfid));
            lemma_parse_optbool_exact(s, pos + o3, add_rfid);
            assert(w.subrange(o4, o5) =~= mid_clear_rfid());
            lemma_sub_at(s, pos, w, o4, mid_clear_rfid());
            assert(w.subrange(o5, o6) =~= optbool_json(clear_rfid));
            lemma_sub_at(s, pos, w, o5, optbool_json(clear_rfid));
            lemma_parse_optbool_exact(s, pos + o5, clear_rfid);
            assert(w.subrange(o6, o6 + 2) =~= suf_obj2());
            lemma_sub_at(s, pos, w, o6, suf_obj2());
    }
}

/// A rendered `Environment` datum parses back to itself.
#[verifier::rlimit(100)]
#[verifier::spinoff_prover]
proof fn lemma_parse_device_environment(s: Seq<u8>, pos: int, d: DeviceData)
    requires
        0 <= pos,
        dev_wf(d),
        d matches DeviceData::Environment { .. },
        pos + dev_json(d).len() <= s.len(),
        s.subrange(pos, pos + dev_json(d).len()) == dev_json(d),
    ensures
        parse_device(s, pos) == Some((d, pos + dev_json(d).len())),
{
    reveal(parse_device);
    let w = dev_json(d);
    assert forall|k: int| 0 <= k < w.len() implies s[pos + k] == w[k] by {
        assert(s.subrange(pos, pos + w.len())[k] == w[k]);
    }
    if let DeviceData::Environment { temperature, humidity, dark } = d {
            assert(w.len() > 4);
            assert(s[pos + 2] == w[2]);
            assert(s[pos + 3] == w[3]);
            lemma_differs(s, pos, pre_light(), 2);
            lemma_differs(s, pos, pre_switch(), 2);
            lemma_differs(s, pos, pre_lock(), 2);
            let o1 = pre_environment().len() as int;
            let o2 = o1 + tenths_json(temperature as int).len() as int;
            let o3 = o2 + mid_humidity().len() as int;
            let o4 = o3 + tenths_json(humidity as int).len() as int;
            let o5 = o4 + mid_dark().len() as int;
            let o6 = o5 + bool_json(dark).len() as int;
            assert(w.subrange(0, o1) =~= pre_environment());
            lemma_sub_at(s, pos, w, 0, pre_environment());
            assert(w.subrange(o1, o2) =~= tenths_json(temperature as int));
            lemma_sub_at(s, pos, w, o1, tenths_json(temperature as int));
            lemma_parse_tenths_exact(s, pos + o1, temperature as int);
            assert(w.subrange(o2, o3) =~= mid_humidity());
            lemma_sub_at(s, pos, w, o2, mid_humidity());
            assert(w.subrange(o3, o4) =~= tenths_json(humidity as int));
            lemma_sub_at(s, pos, w, o3, tenths_json(humidity as int));
            lemma_parse_tenths_exact(s, pos + o3, humidity as int);
            assert(w.subrange(o4, o5) =~= mid_dark());
            lemma_sub_at(s, pos, w, o4, mid_dark());
            assert(w.subrange(o5, o6) =~= bool_json(dark));
            lemma_sub_at(s, pos, w, o5, bool_json(dark));
            lemma_parse_bool_exact(s, pos + o5, dark);
            assert(w.subrange(o6, o6 + 2) =~= suf_obj2());
            lemma_sub_at(s, pos, w, o6, suf_obj2());
    }
}

/// A rendered `Motion` datum parses back to itself.
#[verifier::rlimit(100)]
#[verifier::spinoff_prover]
proof fn lemma_parse_device_motion(s: Seq<u8>, pos: int, d: DeviceData)
    requires
        0 <= pos,
        dev_wf(d),
        d matches DeviceData::Motion { .. },
        pos + dev_json(d).len() <= s.len(),
        s.subrange(pos, pos + dev_json(d).len()) == dev_json(d),
    ensures
        parse_device(s, pos) == Some((d, pos + dev_json(d).len())),
{
    reveal(parse_device);
    let w = dev_json(d);
    assert forall|k: int| 0 <= k < w.len() implies s[pos + k] == w[k] by {
        assert(s.subrange(pos, pos + w.len())[k] == w[k]);
    }
    if let DeviceData::Motion { state } = d {
            assert(w.len() > 4);
            assert(s[pos + 2] == w[2]);
            assert(s[pos + 3] == w[3]);
            lemma_differs(s, pos, pre_light(), 2);
            lemma_differs(s, pos, pre_switch(), 2);
            lemma_differs(s, pos, pre_lock(), 2);
            lemma_differs(s, pos, pre_environment(), 2);
            let o1 = pre_motion().len() as int;
            let o2 = o1 + bool_json(state).len() as int;
            assert(w.subrange(0, o1) =~= pre_motion());
            lemma_sub_at(s, pos, w, 0, pre_motion());
            assert(w.subrange(o1, o2) =~= bool_json(state));
            lemma_sub_at(s, pos, w, o1, bool_json(state));
            lemma_parse_bool_exact(s, pos + o1, state);
            assert(w.subrange(o2, o2 + 2) =~= suf_obj2());
            lemma_sub_at(s, pos, w, o2, suf_obj2());
    }
}

/// A rendered `Fan` datum parses back to itself.
#[verifier::rlimit(100)]
#[verifier::spinoff_prover]
proof fn lemma_parse_device_fan(s: Seq<u8>, pos: int, d: DeviceData)
    requires
        0 <= pos,
        dev_wf(d),
        d matches DeviceData::Fan { .. },
        pos + dev_json(d).len() <= s.len(),
        s.subrange(pos, pos + dev_json(d).len()) == dev_json(d),
    ensures
        parse_device(s, pos) == Some((d, pos + dev_json(d).len())),
{
    reveal(parse_device);
    let w = dev_json(d);
    assert forall|k: int| 0 <= k < w.len() implies s[pos + k] == w[k] by {
        assert(s.subrange(pos, pos + w.len())[k] == w[k]);
    }
    if let DeviceData::Fan { state, threshold_temp, auto_control, light_state } = d {
            assert(w.len() > 4);
            assert(s[pos + 2] == w[2]);
            assert(s[pos + 3] == w[3]);
            lemma_differs(s, pos, pre_light(), 2);
            lemma_differs(s, pos, pre_switch(), 2);
            lemma_differs(s, pos, pre_lock(), 2);
            lemma_differs(s, pos, pre_environment(), 2);
            lemma_differs(s, pos, pre_motion(), 2);
            let o1 = pre_fan().len() as int;
            let o2 = o1 + optbool_json(state).len() as int;
            let o3 = o2 + mid_threshold_temp().len() as int;
            let o4 = o3 + opti8_json(threshold_temp).len() as int;
            let o5 = o4 + mid_auto_control().len() as int;
            let o6 = o5 + optbool_json(auto_control).len() as int;
            let o7 = o6 + mid_light_state().len() as int;
            let o8 = o7 + optbool_json(light_state).len() as int;
            assert(w.subrange(0, o1) =~= pre_fan());
            lemma_sub_at(s, pos, w, 0, pre_fan());
            assert(w.subrange(o1, o2) =~= optbool_json(state));
            lemma_sub_at(s, pos, w, o1, optbool_json(state));
            lemma_parse_optbool_exact(s, pos + o1, state);
            assert(w.subrange(o2, o3) =~= mid_threshold_temp());
            lemma_sub_at(s, pos, w, o2, mid_threshold_temp());
            assert(w.subrange(o3, o4) =~= opti8_json(threshold_temp));
            lemma_sub_at(s, pos, w, o3, opti8_json(threshold_temp));
            assert(s[pos + o4] == 0x2c) by {
                assert(w[o4] == mid_auto_control()[0]) by {
                    assert(w.subrange(o4, o5) =~= mid_auto_control());
                }
            }
            lemma_parse_opti8_exact(s, pos + o3, threshold_temp);
            assert(w.subrange(o4, o5) =~= mid_auto_control());
            lemma_sub_at(s, pos, w, o4, mid_auto_control());
            assert(w.subrange(o5, o6) =~= optbool_json(auto_control));
            lemma_sub_at(s, pos, w, o5, optbool_json(auto_control));
            lemma_parse_optbool_exact(s, pos + o5, auto_control);
            assert(w.subrange(o6, o7) =~= mid_light_state());
            lemma_sub_at(s, pos, w, o6, mid_light_state());
            assert(w.subrange(o7, o8) =~= optbool_json(light_state));
            lemma_sub_at(s, pos, w, o7, optbool_json(light_state));
            lemma_parse_optbool_exact(s, pos + o7, light_state);
            assert(w.subrange(o8, o8 + 2) =~= suf_obj2());
            lemma_sub_at(s, pos, w, o8, suf_obj2());
    }
}

/// A rendered device datum parses back to itself.
proof fn lemma_parse_device_exact(s: Seq<u8>, pos: int, d: DeviceData)
    requires
        0 <= pos,
        dev_wf(d),
        pos + dev_json(d).len() <= s.len(),
        s.subrange(pos, pos + dev_json(d).len()) == dev_json(d),
    ensures
        parse_device(s, pos) == Some((d, pos + dev_json(d).len())),
{
    match d {
        DeviceData::Light { .. } => lemma_parse_device_light(s, pos, d),
        DeviceData::Switch { .. } => lemma_parse_device_switch(s, pos, d),
        DeviceData::Lock { .. } => lemma_parse_device_lock(s, pos, d),
        DeviceData::Environment { .. } => lemma_parse_device_environment(s, pos, d),
        DeviceData::Motion { .. } => lemma_parse_device_motion(s, pos, d),
        DeviceData::Fan { .. } => lemma_parse_device_fan(s, pos, d),
    }
}

/// A rendered role-mutation body parses back to its identity.
proof fn lemma_parse_role_body_exact(s: Seq<u8>, pos: int, id: Seq<u8>)
    requires
        0 <= pos,
        id_wf(id),
        s.len() == pos + id.len() + 2,
        s.subrange(pos, s.len() as int) == id + suf_role(),
    ensures
        parse_role_body(s, pos) == Some(id),
{
    let w = id + suf_role();
    assert(w.subrange(0, id.len() as int) =~= id);
    lemma_sub_at(s, pos, w, 0, id);
    assert(s[pos + id.len()] == 0x22) by {
        assert(s.subrange(pos, s.len() as int)[id.len() as int] == w[id.len() as int]);
    }
    lemma_parse_id_exact(s, pos, id);
    assert(w.subrange(id.len() as int, id.len() as int + 2) =~= suf_role());
    lemma_sub_at(s, pos, w, id.len() as int, suf_role());
}

/// The decoder inverts the encoder: any well-formed message's JSON wire
/// bytes parse back to exactly that message.
#[verifier::rlimit(100)]
pub proof fn lemma_message_roundtrip(m: MessageModel)
    requires
        msg_wf(m),
    ensures
        parse_message(msg_json(m)) == Some(m),
{
    let s = msg_json(m);
    match m {
        MessageModel::AddController(id) => {
            assert(s.subrange(0, pre_add_controller().len() as int) =~= pre_add_controller());
            assert(s.subrange(pre_add_controller().len() as int, s.len() as int) =~= id
                + suf_role());
            lemma_parse_role_body_exact(s, pre_add_controller().len() as int, id);
        },
        MessageModel::RemoveController(id) => {
            assert(s[2] == 0x72);
            lemma_differs(s, 0, pre_add_controller(), 2);
            assert(s.subrange(0, pre_remove_controller().len() as int)
                =~= pre_remove_controller());
            assert(s.subrange(pre_remove_controller().len() as int, s.len() as int) =~= id
                + suf_role());
            lemma_parse_role_body_exact(s, pre_remove_controller().len() as int, id);
        },
        MessageModel::AddSubscriber(id) => {
            assert(s[2] == 0x61 && s[6] == 0x73);
            lemma_differs(s, 0, pre_add_controller(), 6);
            lemma_differs(s, 0, pre_remove_controller(), 2);
            assert(s.subrange(0, pre_add_subscriber().len() as int) =~= pre_add_subscriber());
            assert(s.subrange(pre_add_subscriber().len() as int, s.len() as int) =~= id
                + suf_role());
            lemma_parse_role_body_exact(s, pre_add_subscriber().len() as int, id);
        },
        MessageModel::RemoveSubscriber(id) => {
            assert(s[2] == 0x72 && s[9] == 0x73);
            lemma_differs(s, 0, pre_add_controller(), 2);
            lemma_differs(s, 0, pre_remove_controller(), 9);
            lemma_differs(s, 0, pre_add_subscriber(), 2);
            assert(s.subrange(0, pre_remove_subscriber().len() as int)
                =~= pre_remove_subscriber());
            assert(s.subrange(pre_remove_subscriber().len() as int, s.len() as int) =~= id
                + suf_role());
            lemma_parse_role_body_exact(s, pre_remove_subscriber().len() as int, id);
        },
        MessageModel::AddManager(id) => {
            assert(s[2] == 0x61 && s[6] == 0x6d);
            lemma_differs(s, 0, pre_add_controller(), 6);
            lemma_differs(s, 0, pre_remove_controller(), 2);
            lemma_differs(s, 0, pre_add_subscriber(), 6);
            lemma_differs(s, 0, pre_remove_subscriber(), 2);
            assert(s.subrange(0, pre_add_manager().len() as int) =~= pre_add_manager());
            assert(s.subrange(pre_add_manager().len() as int, s.len() as int) =~= id
                + suf_role());
            lemma_parse_role_body_exact(s, pre_add_manager().len() as int, id);
        },
        MessageModel::RemoveManager(id) => {
            assert(s[2] == 0x72 && s[9] == 0x6d);
            lemma_differs(s, 0, pre_add_controller(), 2);
            lemma_differs(s, 0, pre_remove_controller(), 9);
            lemma_differs(s, 0, pre_add_subscriber(), 2);
            lemma_differs(s, 0, pre_remove_subscriber(), 9);
            lemma_differs(s, 0, pre_add_manager(), 2);
            assert(s.subrange(0, pre_remove_manager().len() as int) =~= pre_remove_manager());
            assert(s.subrange(pre_remove_manager().len() as int, s.len() as int) =~= id
                + suf_role());
            lemma_parse_role_body_exact(s, pre_remove_manager().len() as int, id);
        },
        MessageModel::Update(d) => {
            assert(s[2] == 0x75);
            lemma_differs(s, 0, pre_add_controller(), 2);
            lemma_differs(s, 0, pre_remove_controller(), 2);
            lemma_differs(s, 0, pre_add_subscriber(), 2);
            lemma_differs(s, 0, pre_remove_subscriber(), 2);
            lemma_differs(s, 0, pre_add_manager(), 2);
            lemma_differs(s, 0, pre_remove_manager(), 2);
            assert(parse_role_message(s) is None);
            let o1 = pre_update().len() as int;
            let o2 = o1 + dev_json(d).len() as int;
            assert(s.subrange(0, o1) =~= pre_update());
            assert(s.subrange(o1, o2) =~= dev_json(d));
            lemma_parse_device_exact(s, o1, d);
            assert(s.subrange(o2, o2 + 1) =~= suf_brace());
            assert(lit_at(s, o2, suf_brace()));
        },
        MessageModel::Control(d) => {
            assert(s[2] == 0x63 && s[3] == 0x6f);
            lemma_differs(s, 0, pre_add_controller(), 2);
            lemma_differs(s, 0, pre_remove_controller(), 2);
            lemma_differs(s, 0, pre_add_subscriber(), 2);
            lemma_differs(s, 0, pre_remove_subscriber(), 2);
            lemma_differs(s, 0, pre_add_manager(), 2);
            lemma_differs(s, 0, pre_remove_manager(), 2);
            assert(parse_role_message(s) is None);
            lemma_differs(s, 0, pre_update(), 2);
            let o1 = pre_control().len() as int;
            let o2 = o1 + dev_json(d).len() as int;
            assert(s.subrange(0, o1) =~= pre_control());
            assert(s.subrange(o1, o2) =~= dev_json(d));
            lemma_parse_device_exact(s, o1, d);
            assert(s.subrange(o2, o2 + 1) =~= suf_brace());
            assert(lit_at(s, o2, suf_brace()));
        },
    }
}

} // verus!
