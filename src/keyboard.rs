use crate::color::Color;
use crate::color_param::{ColorParam, Direction, KeyMap};
use crate::effects::{
    color_command, fade_command, fade_payload, gradient_command, gradient_payload, pulse_payload,
    rain_mode, rain_payload, reactive_payload, reactive_ripple_payload, trigger_code,
    wave_payload, OP_PULSE, OP_RAIN, OP_REACTIVE, OP_REACTIVE_RIPPLE, OP_WAVE,
};
use crate::geometry::{lemma_ledmap_injective, ledmap, ledmap_of, NO_LED, led_count_of, width_of, FULL_LED_COUNT, FULL_WIDTH, MINI_LED_COUNT, MINI_WIDTH};
use crate::gradient::Stop;
use crate::protocol::{opcode, packetize, reports, MAX_COMMAND_LEN};
use hidapi::{HidDevice, HidError};
use vstd::prelude::*;

verus! {

#[verifier::external_type_specification]
#[verifier::external_body]
pub struct ExHidDevice(HidDevice);

#[verifier::external_type_specification]
#[verifier::external_body]
pub struct ExHidError(HidError);

/// Vendor id of the supported keyboards.
pub const VENDOR_ID: u16 = 0x2f0e;

/// Product id of the full-size keyboard.
pub const FULL_PRODUCT_ID: u16 = 0x0101;

/// Product id of the compact keyboard.
pub const MINI_PRODUCT_ID: u16 = 0x0102;

/// USB interface through which the keyboard takes lighting commands.
pub const LIGHTING_INTERFACE: i32 = 1;

/// Opcode of a color command that is written to the active profile.
pub const OP_WRITE_PERMANENT: u8 = 0x05;

/// Opcode of a color command that is shown without being stored.
pub const OP_TEMPORARY: u8 = 0x0f;

/// Opcode that selects the profile to show.
pub const OP_SELECT_PROFILE: u8 = 0x04;

/// Opcode that stores what was written to a profile.
pub const OP_SAVE: u8 = 0x13;

/// Opcode that sets every key's color.
pub const OP_ALL_KEYS: u8 = 0x03;

/// Failure to talk to the keyboard.
pub enum KeyboardError {
    /// Writing a report failed.
    Write(HidError),
}

/// Relies on hidapi's `HidDevice::write`, which hands one output report to
/// the device; its outcome depends on the device alone.
#[verifier::external_body]
fn write_report(dev: &HidDevice, report: &[u8; 65]) -> (r: Result<usize, HidError>) {
    dev.write(report)
}

/// Whether a HID interface is the lighting interface of a supported keyboard.
pub fn is_keyboard_interface(vendor_id: u16, product_id: u16, interface: i32) -> (r: bool)
    ensures
        r == (vendor_id == VENDOR_ID && (product_id == FULL_PRODUCT_ID || product_id == MINI_PRODUCT_ID)
            && interface == LIGHTING_INTERFACE),
{
    vendor_id == VENDOR_ID && (product_id == FULL_PRODUCT_ID || product_id == MINI_PRODUCT_ID)
        && interface == LIGHTING_INTERFACE
}

/// The reports that sending `prefix ++ payload` puts on the wire: the
/// command's own, then for a permanent write a save and a profile selection.
pub open spec fn command_reports(prefix: Seq<u8>, payload: Seq<u8>, profile: u8) -> Seq<Seq<u8>> {
    if opcode(prefix, payload) == OP_WRITE_PERMANENT {
        reports(prefix, payload) + reports(seq![OP_SAVE], seq![]) + reports(
            seq![OP_SELECT_PROFILE],
            seq![profile],
        )
    } else {
        reports(prefix, payload)
    }
}

/// `after` is `before` followed by all of `full` when `ok`, by a part of it
/// that stops short of its end otherwise.
pub open spec fn delivered(before: Seq<Seq<u8>>, after: Seq<Seq<u8>>, full: Seq<Seq<u8>>, ok: bool) -> bool {
    if ok {
        after == before + full
    } else {
        exists|k: int| 0 <= k < full.len() && after == before + full.subrange(0, k)
    }
}

/// The command prefix of color commands while a profile is written.
pub open spec fn permanent_prefix(profile: u8) -> Seq<u8> {
    seq![OP_WRITE_PERMANENT, profile, 0x02]
}

/// A connected keyboard and the state of its profiles.
pub struct Keyboard {
    dev: HidDevice,
    color_cmd_prefix: Vec<u8>,
    profile: u8,
    mini: bool,
    width: usize,
    led_count: usize,
    /// LED index of each cell of the key grid, row by row; `NO_LED` where
    /// the cell has no key.
    ledmap: Vec<u8>,
    log: Ghost<Seq<Seq<u8>>>,
}

/// LED indices of named keys.
impl Keyboard {
    pub const FN_LOCK: usize = 0;
    pub const ESCAPE: usize = 1;
    pub const BACKTICK: usize = 2;
    pub const TAB: usize = 3;
    pub const CAPS_LOCK: usize = 4;
    pub const LSHIFT: usize = 5;
    pub const LCONTROL: usize = 6;
    pub const F1: usize = 7;
    pub const TW_1: usize = 8;
    pub const Q: usize = 9;
    pub const A: usize = 10;
    pub const ISO_PIPE: usize = 11;
    pub const META: usize = 12;
    pub const F2: usize = 13;
    pub const TW_2: usize = 14;
    pub const W: usize = 15;
    pub const S: usize = 16;
    pub const Z: usize = 17;
    pub const LALT: usize = 18;
    pub const F3: usize = 19;
    pub const TW_3: usize = 20;
    pub const E: usize = 21;
    pub const D: usize = 22;
    pub const X: usize = 23;

    pub const F4: usize = 25;
    pub const TW_4: usize = 26;
    pub const R: usize = 27;
    pub const F: usize = 28;
    pub const C: usize = 29;

    pub const F5: usize = 31;
    pub const TW_5: usize = 32;
    pub const T: usize = 33;
    pub const G: usize = 34;
    pub const V: usize = 35;
    pub const SPACE: usize = 36;
    pub const F6: usize = 37;
    pub const TW_6: usize = 38;
    pub const Y: usize = 39;
    pub const H: usize = 40;
    pub const B: usize = 41;

    pub const F7: usize = 43;
    pub const TW_7: usize = 44;
    pub const U: usize = 45;
    pub const J: usize = 46;
    pub const N: usize = 47;

    pub const F8: usize = 49;
    pub const TW_8: usize = 50;
    pub const I: usize = 51;
    pub const K: usize = 52;
    pub const M: usize = 53;

    pub const F9: usize = 55;
    pub const TW_9: usize = 56;
    pub const O: usize = 57;
    pub const L: usize = 58;
    pub const COMMA: usize = 59;
    pub const RALT: usize = 60;
    pub const TW_0: usize = 61;
    pub const MINUS: usize = 62;
    pub const P: usize = 63;
    pub const SEMICOLON: usize = 64;
    pub const DOT: usize = 65;
    pub const SLASH: usize = 66;
    pub const F10: usize = 67;
    pub const EQUAL: usize = 68;
    pub const LBRACKET: usize = 69;
    pub const QUOTE: usize = 70;

    pub const FN: usize = 72;
    pub const F11: usize = 73;

    pub const RBRACKET: usize = 75;
    pub const ISO_BACKSLASH: usize = 76;
    pub const RSHIFT: usize = 77;
    pub const MENU: usize = 78;
    pub const F12: usize = 79;
    pub const BACKSPACE: usize = 80;
    pub const ANSI_BACKSLASH: usize = 81;
    pub const ENTER: usize = 82;
    pub const RCONTROL: usize = 83;
    pub const LEFT: usize = 84;
    pub const DOWN: usize = 85;
    pub const RIGHT: usize = 86;
    pub const UP: usize = 87;
    pub const DELETE: usize = 88;
    pub const INSERT: usize = 89;
    pub const PRINT: usize = 90;
    pub const MUTE_MIC: usize = 91;
    pub const MUTE_SPEAKER: usize = 92;
    pub const SCROLL_LOCK: usize = 93;
    pub const HOME: usize = 94;
    pub const END: usize = 95;
    pub const PAGE_DOWN: usize = 96;
    pub const GAMING_MODE: usize = 97;
    pub const PAUSE: usize = 98;
    pub const PAGE_UP: usize = 99;

    pub const MINI_SIG_PLATE: usize = 103;

    pub const NUM_LOCK: usize = 100;
    pub const NUM_7: usize = 101;
    pub const NUM_4: usize = 102;
    pub const NUM_1: usize = 103;
    pub const NUM_0: usize = 104;
    pub const NUM_2: usize = 105;
    pub const NUM_5: usize = 106;
    pub const NUM_8: usize = 107;
    pub const NUM_SLASH: usize = 108;
    pub const NUM_ASTERISK: usize = 109;
    pub const NUM_9: usize = 110;
    pub const NUM_6: usize = 111;
    pub const NUM_3: usize = 112;
    pub const NUM_DECIMAL: usize = 113;
    pub const NUM_ENTER: usize = 114;
    pub const NUM_PLUS: usize = 115;
    pub const NUM_MINUS: usize = 116;

    pub const VOLUME_KNOB: usize = 118;

    pub const FULL_SIG_PLATE: usize = 120;
}

impl Keyboard {
    /// Whether this is the compact model.
    pub closed spec fn is_mini(&self) -> bool {
        self.mini
    }

    /// Columns of the key grid.
    pub closed spec fn spec_width(&self) -> usize {
        self.width
    }

    /// Number of LEDs.
    pub closed spec fn spec_led_count(&self) -> usize {
        self.led_count
    }

    /// LED index of each cell of the key grid, row by row.
    pub closed spec fn spec_ledmap(&self) -> Seq<u8> {
        self.ledmap@
    }

    /// The grid, LED count and table are those of the keyboard's model.
    pub open spec fn layout_ok(&self) -> bool {
        &&& self.spec_width() == width_of(self.is_mini())
        &&& self.spec_led_count() == led_count_of(self.is_mini())
        &&& self.spec_ledmap() == ledmap_of(self.is_mini())
    }

    /// Whether this is the compact model.
    pub fn mini(&self) -> (r: bool)
        ensures
            r == self.is_mini(),
    {
        self.mini
    }

    /// Columns of the key grid.
    pub fn width(&self) -> (r: usize)
        ensures
            r == self.spec_width(),
    {
        self.width
    }

    /// Number of LEDs.
    pub fn led_count(&self) -> (r: usize)
        ensures
            r == self.spec_led_count(),
    {
        self.led_count
    }

    /// LED index of each cell of the key grid, row by row; `NO_LED` where
    /// the cell has no key.
    pub fn ledmap(&self) -> (r: &Vec<u8>)
        ensures
            r@ == self.spec_ledmap(),
    {
        &self.ledmap
    }

    /// The layout of a keyboard whose fields are those of its model: six
    /// rows of 18 or 22 cells, 106 or 124 LEDs, and a table in which each
    /// entry with a key is an LED index below the LED count, held once.
    pub proof fn lemma_layout(&self)
        requires
            self.layout_ok(),
        ensures
            self.is_mini() ==> self.spec_width() == 18 && self.spec_led_count() == 106,
            !self.is_mini() ==> self.spec_width() == 22 && self.spec_led_count() == 124,
            self.spec_ledmap().len() == self.spec_width() * 6,
            forall|i: int|
                0 <= i < self.spec_ledmap().len() && #[trigger] self.spec_ledmap()[i] != NO_LED
                    ==> self.spec_ledmap()[i] < self.spec_led_count(),
            forall|i: int, j: int|
                0 <= i < self.spec_ledmap().len() && 0 <= j < self.spec_ledmap().len() && i != j
                    && #[trigger] self.spec_ledmap()[i] != NO_LED ==> self.spec_ledmap()[i]
                    != #[trigger] self.spec_ledmap()[j],
    {
        lemma_ledmap_injective(self.is_mini());
    }

    /// The selected profile.
    pub closed spec fn active_profile(&self) -> u8 {
        self.profile
    }

    /// The prefix that color commands are sent with.
    pub closed spec fn prefix(&self) -> Seq<u8> {
        self.color_cmd_prefix@
    }

    /// Every report handed to the device so far, in order.
    pub closed spec fn sent(&self) -> Seq<Seq<u8>> {
        self.log@
    }

    pub closed spec fn wf(&self) -> bool {
        &&& 1 <= self.profile <= 4
        &&& self.color_cmd_prefix@ == permanent_prefix(self.profile) || self.color_cmd_prefix@ == seq![
            OP_TEMPORARY,
        ]
        &&& self.width == width_of(self.mini)
        &&& self.led_count == led_count_of(self.mini)
        &&& self.ledmap@ == ledmap_of(self.mini)
    }

    /// All but the log of reports is as in `other`.
    pub open spec fn same_state(&self, other: &Keyboard) -> bool {
        &&& self.same_device(other)
        &&& self.active_profile() == other.active_profile()
        &&& self.prefix() == other.prefix()
    }

    /// Well formed, and of the same model as `other`, with its layout.
    pub open spec fn same_device(&self, other: &Keyboard) -> bool {
        &&& self.wf()
        &&& self.layout_ok()
        &&& self.is_mini() == other.is_mini()
    }

    /// The keyboard behind an opened HID device of the given product, on profile 1.
    pub fn new(dev: HidDevice, product_id: u16) -> (r: Keyboard)
        ensures
            r.wf(),
            r.layout_ok(),
            r.is_mini() == (product_id == MINI_PRODUCT_ID),
            r.active_profile() == 1,
            r.prefix() == permanent_prefix(1),
            r.sent() == Seq::<Seq<u8>>::empty(),
    {
        let mini = product_id == MINI_PRODUCT_ID;
        Keyboard {
            dev,
            color_cmd_prefix: vec![OP_WRITE_PERMANENT, 0x01, 0x02],
            profile: 1,
            mini,
            width: if mini {
                MINI_WIDTH
            } else {
                FULL_WIDTH
            },
            led_count: if mini {
                MINI_LED_COUNT
            } else {
                FULL_LED_COUNT
            },
            ledmap: ledmap(mini),
            log: Ghost(Seq::empty()),
        }
    }

    /// Writes the reports of one command, stopping at the first failed write.
    fn send_packets(&mut self, prefix: &[u8], payload: &[u8]) -> (r: Result<(), KeyboardError>)
        requires
            old(self).wf(),
            0 < prefix@.len() + payload@.len() <= MAX_COMMAND_LEN,
        ensures
            final(self).same_state(old(self)),
            delivered(old(self).sent(), final(self).sent(), reports(prefix@, payload@), r is Ok),
    {
        let packets = packetize(prefix, payload);
        let ghost before = self.log@;
        let mut i: usize = 0;
        while i < packets.len()
            invariant
                self.same_state(old(self)),
                before == old(self).sent(),
                packets@.len() == reports(prefix@, payload@).len(),
                forall|m: int| 0 <= m < packets@.len() ==> (#[trigger] packets@[m])@ == reports(prefix@, payload@)[m],
                i <= packets@.len(),
                self.log@ == before + reports(prefix@, payload@).subrange(0, i as int),
            decreases packets@.len() - i,
        {
            match write_report(&self.dev, &packets[i]) {
                Ok(_) => {},
                Err(e) => return Err(KeyboardError::Write(e)),
            }
            proof {
                self.log@ = self.log@.push(packets@[i as int]@);
                assert(self.log@ =~= before + reports(prefix@, payload@).subrange(0, i + 1));
            }
            i = i + 1;
        }
        assert(reports(prefix@, payload@).subrange(0, i as int) =~= reports(prefix@, payload@));
        Ok(())
    }

    /// Sends the command `prefix ++ payload`. A command written to a profile
    /// is followed by a save and by the selection of the active profile.
    pub fn send_req(&mut self, prefix: &[u8], raw_data: &[u8]) -> (r: Result<(), KeyboardError>)
        requires
            old(self).wf(),
            0 < prefix@.len() + raw_data@.len() <= MAX_COMMAND_LEN,
        ensures
            final(self).same_state(old(self)),
            delivered(
                old(self).sent(),
                final(self).sent(),
                command_reports(prefix@, raw_data@, old(self).active_profile()),
                r is Ok,
            ),
    {
        let cmd = if prefix.len() > 0 {
            prefix[0]
        } else {
            raw_data[0]
        };
        let ghost s0 = self.log@;
        let ghost a = reports(prefix@, raw_data@);
        let ghost b = reports(seq![OP_SAVE], seq![]);
        let ghost c = reports(seq![OP_SELECT_PROFILE], seq![self.profile]);
        match self.send_packets(prefix, raw_data) {
            Ok(()) => {},
            Err(e) => {
                proof {
                    let full = command_reports(prefix@, raw_data@, old(self).active_profile());
                    let k = choose|k: int| 0 <= k < a.len() && s0 + a.subrange(0, k) == self.log@;
                    assert(full.subrange(0, k) =~= a.subrange(0, k));
                }
                return Err(e);
            },
        }
        if cmd == OP_WRITE_PERMANENT {
            let profile = [self.profile];
            assert(profile@ =~= seq![self.profile]);
            let save: [u8; 1] = [OP_SAVE];
            assert(save@ =~= seq![OP_SAVE]);
            let empty: [u8; 0] = [];
            assert(empty@ =~= Seq::<u8>::empty());
            let ghost s1 = self.log@;
            match self.send_packets(&save, &empty) {
                Ok(()) => {},
                Err(e) => {
                    proof {
                        let k = choose|k: int| 0 <= k < b.len() && s1 + b.subrange(0, k) == self.log@;
                        assert((a + b + c).subrange(0, a.len() + k) =~= a + b.subrange(0, k));
                        assert(self.log@ =~= s0 + (a + b + c).subrange(0, a.len() + k));
                    }
                    return Err(e);
                },
            }
            let ghost s2 = self.log@;
            let select: [u8; 1] = [OP_SELECT_PROFILE];
            assert(select@ =~= seq![OP_SELECT_PROFILE]);
            match self.send_packets(&select, &profile) {
                Ok(()) => {},
                Err(e) => {
                    proof {
                        let k = choose|k: int| 0 <= k < c.len() && s2 + c.subrange(0, k) == self.log@;
                        assert((a + b + c).subrange(0, a.len() + b.len() + k) =~= a + b + c.subrange(0, k));
                        assert(self.log@ =~= s0 + (a + b + c).subrange(0, a.len() + b.len() + k));
                    }
                    return Err(e);
                },
            }
            assert(self.log@ =~= s0 + (a + b + c));
        }
        Ok(())
    }
}

/// The raw bytes of a key map: red, green and blue of each slot in turn.
pub open spec fn key_bytes(map: Seq<Color>) -> Seq<u8> {
    Seq::new(3 * map.len(), |k: int| crate::color_param::channel(map[k / 3], k % 3))
}

/// The prefix of the command that sets every key, under the color-command prefix `p`.
pub open spec fn all_keys_prefix(p: Seq<u8>, profile: u8) -> Seq<u8> {
    if p[0] == OP_WRITE_PERMANENT {
        seq![OP_WRITE_PERMANENT, profile, 0x02, OP_ALL_KEYS]
    } else {
        seq![OP_TEMPORARY, OP_ALL_KEYS]
    }
}

impl Keyboard {
    /// `self` sent the color command `payload` with `before`'s prefix and profile.
    pub open spec fn sent_color_command(&self, before: &Keyboard, payload: Seq<u8>, ok: bool) -> bool {
        &&& self.same_state(before)
        &&& delivered(
            before.sent(),
            self.sent(),
            command_reports(before.prefix(), payload, before.active_profile()),
            ok,
        )
    }

    /// Sends color commands for display only, so that frequent updates are
    /// not stored in the profile.
    pub fn software_effect_start(&mut self)
        requires
            old(self).wf(),
        ensures
            final(self).same_device(old(self)),
            final(self).active_profile() == old(self).active_profile(),
            final(self).prefix() == seq![OP_TEMPORARY],
            final(self).sent() == old(self).sent(),
    {
        self.color_cmd_prefix = vec![OP_TEMPORARY];
        assert(self.color_cmd_prefix@ =~= seq![OP_TEMPORARY]);
    }

    /// Goes back to writing color commands to the active profile, and shows it.
    pub fn software_effect_end(&mut self) -> (r: Result<(), KeyboardError>)
        requires
            old(self).wf(),
        ensures
            final(self).same_device(old(self)),
            final(self).active_profile() == old(self).active_profile(),
            final(self).prefix() == permanent_prefix(old(self).active_profile()),
            delivered(
                old(self).sent(),
                final(self).sent(),
                reports(seq![OP_SELECT_PROFILE], seq![old(self).active_profile()]),
                r is Ok,
            ),
    {
        self.color_cmd_prefix = vec![OP_WRITE_PERMANENT, self.profile, 0x02];
        assert(self.color_cmd_prefix@ =~= permanent_prefix(self.profile));
        self.refresh_profile()
    }

    /// Makes `profile` the active profile, writes to it and shows it.
    pub fn set_profile(&mut self, profile: u8) -> (r: Result<(), KeyboardError>)
        requires
            old(self).wf(),
            1 <= profile <= 4,
        ensures
            final(self).same_device(old(self)),
            final(self).active_profile() == profile,
            final(self).prefix() == permanent_prefix(profile),
            delivered(old(self).sent(), final(self).sent(), reports(seq![OP_SELECT_PROFILE], seq![profile]), r is Ok),
    {
        self.profile = profile;
        self.color_cmd_prefix = vec![OP_WRITE_PERMANENT, profile, 0x02];
        assert(self.color_cmd_prefix@ =~= permanent_prefix(profile));
        self.refresh_profile()
    }

    /// Shows the active profile.
    pub fn refresh_profile(&mut self) -> (r: Result<(), KeyboardError>)
        requires
            old(self).wf(),
        ensures
            final(self).same_state(old(self)),
            delivered(
                old(self).sent(),
                final(self).sent(),
                reports(seq![OP_SELECT_PROFILE], seq![old(self).active_profile()]),
                r is Ok,
            ),
    {
        let select: [u8; 1] = [OP_SELECT_PROFILE];
        let profile: [u8; 1] = [self.profile];
        assert(select@ =~= seq![OP_SELECT_PROFILE]);
        assert(profile@ =~= seq![self.profile]);
        self.send_req(&select, &profile)
    }

    /// Sets every LED's color from raw bytes: red, green and blue per LED index.
    pub fn all_keys_raw(&mut self, raw_keys: &[u8]) -> (r: Result<(), KeyboardError>)
        requires
            old(self).wf(),
            raw_keys@.len() + 4 <= MAX_COMMAND_LEN,
        ensures
            final(self).same_state(old(self)),
            delivered(
                old(self).sent(),
                final(self).sent(),
                command_reports(
                    all_keys_prefix(old(self).prefix(), old(self).active_profile()),
                    raw_keys@,
                    old(self).active_profile(),
                ),
                r is Ok,
            ),
    {
        if self.color_cmd_prefix[0] == OP_WRITE_PERMANENT {
            let prefix: [u8; 4] = [OP_WRITE_PERMANENT, self.profile, 0x02, OP_ALL_KEYS];
            assert(prefix@ =~= all_keys_prefix(self.color_cmd_prefix@, self.profile));
            self.send_req(&prefix, raw_keys)
        } else {
            let prefix: [u8; 2] = [OP_TEMPORARY, OP_ALL_KEYS];
            assert(prefix@ =~= all_keys_prefix(self.color_cmd_prefix@, self.profile));
            self.send_req(&prefix, raw_keys)
        }
    }

    /// Sets every key's color from a per-key map.
    pub fn all_keys(&mut self, keys: &KeyMap) -> (r: Result<(), KeyboardError>)
        requires
            old(self).wf(),
            3 * keys.map@.len() + 4 <= MAX_COMMAND_LEN,
        ensures
            final(self).same_state(old(self)),
            delivered(
                old(self).sent(),
                final(self).sent(),
                command_reports(
                    all_keys_prefix(old(self).prefix(), old(self).active_profile()),
                    key_bytes(keys.map@),
                    old(self).active_profile(),
                ),
                r is Ok,
            ),
    {
        let raw = keys.raw();
        assert(raw@ =~= key_bytes(keys.map@));
        self.all_keys_raw(raw.as_slice())
    }

    fn send_color_command(&mut self, payload: &Vec<u8>) -> (r: Result<(), KeyboardError>)
        requires
            old(self).wf(),
            0 < payload@.len() <= 44,
        ensures
            final(self).sent_color_command(old(self), payload@, r is Ok),
    {
        let prefix = self.color_cmd_prefix.clone();
        assert(prefix@ == self.color_cmd_prefix@);
        self.send_req(prefix.as_slice(), payload.as_slice())
    }

    /// Lights all LEDs in pulses.
    pub fn pulse(&mut self, cp: ColorParam, speed: u8) -> (r: Result<(), KeyboardError>)
        requires
            old(self).wf(),
            cp.wf(),
        ensures
            final(self).sent_color_command(
                old(self),
                color_command(OP_PULSE, cp.spec_mode(), cp, speed, seq![]),
                r is Ok,
            ),
    {
        let payload = pulse_payload(&cp, speed);
        self.send_color_command(&payload)
    }

    /// Rolls a wave of light over the keyboard.
    pub fn wave(&mut self, cp: ColorParam, speed: u8, direction: Direction) -> (r: Result<(), KeyboardError>)
        requires
            old(self).wf(),
            cp.wf(),
        ensures
            final(self).sent_color_command(
                old(self),
                color_command(OP_WAVE, cp.spec_mode(), cp, speed, seq![direction.spec_code()]),
                r is Ok,
            ),
    {
        let payload = wave_payload(&cp, speed, &direction);
        self.send_color_command(&payload)
    }

    /// Lights a key when it is pressed, or released where `keyup`.
    pub fn reactive(&mut self, cp: ColorParam, speed: u8, keyup: bool) -> (r: Result<(), KeyboardError>)
        requires
            old(self).wf(),
            cp.wf(),
        ensures
            final(self).sent_color_command(
                old(self),
                color_command(OP_REACTIVE, cp.spec_mode(), cp, speed, seq![trigger_code(keyup)]),
                r is Ok,
            ),
    {
        let payload = reactive_payload(&cp, speed, keyup);
        self.send_color_command(&payload)
    }

    /// Sends a ripple from a key when it is pressed, or released where `keyup`.
    pub fn reactive_ripple(&mut self, cp: ColorParam, speed: u8, keyup: bool) -> (r: Result<(), KeyboardError>)
        requires
            old(self).wf(),
            cp.wf(),
        ensures
            final(self).sent_color_command(
                old(self),
                color_command(OP_REACTIVE_RIPPLE, cp.spec_mode(), cp, speed, seq![trigger_code(keyup)]),
                r is Ok,
            ),
    {
        let payload = reactive_ripple_payload(&cp, speed, keyup);
        self.send_color_command(&payload)
    }

    /// Lets light fall like rain over a few LEDs of each row or column.
    pub fn rain(&mut self, cp: ColorParam, speed: u8, direction: Direction) -> (r: Result<(), KeyboardError>)
        requires
            old(self).wf(),
            cp.wf(),
        ensures
            final(self).sent_color_command(
                old(self),
                color_command(OP_RAIN, rain_mode(cp), cp, speed, seq![direction.spec_code()]),
                r is Ok,
            ),
    {
        let payload = rain_payload(&cp, speed, &direction);
        self.send_color_command(&payload)
    }

    /// Shows a static gradient.
    pub fn gradient(&mut self, cp: ColorParam) -> (r: Result<(), KeyboardError>)
        requires
            old(self).wf(),
            cp.wf(),
        ensures
            exists|stops: Seq<Stop>|
                cp.resolves_to(stops) && final(self).sent_color_command(
                    old(self),
                    gradient_command(stops),
                    r is Ok,
                ),
    {
        let g = cp.gradient();
        proof {
            cp.lemma_resolved_len(g.colors@);
        }
        let payload = gradient_payload(&g);
        self.send_color_command(&payload)
    }

    /// Fades all LEDs together through a gradient.
    pub fn fade(&mut self, cp: ColorParam, speed: u8) -> (r: Result<(), KeyboardError>)
        requires
            old(self).wf(),
            cp.wf(),
        ensures
            exists|stops: Seq<Stop>|
                cp.resolves_to(stops) && final(self).sent_color_command(
                    old(self),
                    fade_command(cp.spec_mode(), stops, speed),
                    r is Ok,
                ),
    {
        let g = cp.gradient();
        proof {
            cp.lemma_resolved_len(g.colors@);
        }
        let payload = fade_payload(cp.mode(), &g, speed);
        self.send_color_command(&payload)
    }
}

} // verus!
