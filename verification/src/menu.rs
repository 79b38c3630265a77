//! The tray menu's item ids and what choosing each one asks for.
use vstd::prelude::*;
use vstd::string::*;

use crate::permissions::{
    lemma_permission_key_round_trip, permission_for_key, permission_key, permission_label,
    status_label, Permission, PermissionStatus,
};
use crate::text::{chars_of, push_char, same_text};

verus! {

/// The refresh intervals the tray offers, in milliseconds.
pub fn intervals() -> (r: [u64; 4])
    ensures
        r@ == seq![200u64, 500u64, 1000u64, 2000u64],
{
    let r = [200u64, 500u64, 1000u64, 2000u64];
    assert(r@ =~= seq![200u64, 500u64, 1000u64, 2000u64]);
    r
}

/// The overlay opacities the tray offers, in percent.
pub fn opacities() -> (r: [u8; 4])
    ensures
        r@ == seq![40u8, 60u8, 80u8, 100u8],
{
    let r = [40u8, 60u8, 80u8, 100u8];
    assert(r@ =~= seq![40u8, 60u8, 80u8, 100u8]);
    r
}

/// What choosing a tray item asks for.
#[derive(Debug, Clone, Copy, PartialEq, Eq, Structural)]
pub enum MenuCommand {
    Quit,
    ToggleOverlay,
    RefreshPermissions,
    SetInterval(u64),
    SetOpacity(u8),
    Grant(Permission),
    OpenSettings(Permission),
    /// An item with a known prefix whose rest names nothing: the tray never builds one.
    Malformed,
    /// An item the tray does not know.
    Unknown,
}

pub open spec fn is_digit(c: char) -> bool {
    '0' <= c <= '9'
}

pub open spec fn digit_value(c: char) -> int {
    (c as int) - ('0' as int)
}

/// The value of the decimal digits `s`.
pub open spec fn decimal_value(s: Seq<char>) -> int
    decreases s.len(),
{
    if s.len() == 0 {
        0
    } else {
        decimal_value(s.drop_last()) * 10 + digit_value(s.last())
    }
}

/// The digits of an unsigned number as `str::parse` reads it: an optional leading `+`, then the
/// digits.
pub open spec fn unsigned_digits(s: Seq<char>) -> Seq<char> {
    if s.len() > 0 && s[0] == '+' {
        s.drop_first()
    } else {
        s
    }
}

/// The number `s` reads as, as `str::parse` reads an unsigned integer no larger than `max`.
pub open spec fn parsed_unsigned(s: Seq<char>, max: int) -> Option<int> {
    let digits = unsigned_digits(s);
    if digits.len() > 0 && (forall|i: int| 0 <= i < digits.len() ==> is_digit(#[trigger] digits[i]))
        && decimal_value(digits) <= max {
        Some(decimal_value(digits))
    } else {
        None
    }
}

pub open spec fn has_prefix(s: Seq<char>, prefix: Seq<char>) -> bool {
    prefix.len() <= s.len() && s.subrange(0, prefix.len() as int) == prefix
}

pub open spec fn after_prefix(s: Seq<char>, prefix: Seq<char>) -> Seq<char> {
    s.subrange(prefix.len() as int, s.len() as int)
}

/// What the tray item `id` asks for.
pub open spec fn menu_command(id: Seq<char>) -> MenuCommand {
    if id == "quit"@ {
        MenuCommand::Quit
    } else if id == "overlay"@ {
        MenuCommand::ToggleOverlay
    } else if id == "permissions:refresh"@ {
        MenuCommand::RefreshPermissions
    } else if has_prefix(id, "interval:"@) {
        match parsed_unsigned(after_prefix(id, "interval:"@), u64::MAX as int) {
            Some(ms) => MenuCommand::SetInterval(ms as u64),
            None => MenuCommand::Malformed,
        }
    } else if has_prefix(id, "opacity:"@) {
        match parsed_unsigned(after_prefix(id, "opacity:"@), u8::MAX as int) {
            Some(value) => MenuCommand::SetOpacity(value as u8),
            None => MenuCommand::Malformed,
        }
    } else if has_prefix(id, "grant:"@) {
        match permission_for_key(after_prefix(id, "grant:"@)) {
            Some(permission) => MenuCommand::Grant(permission),
            None => MenuCommand::Malformed,
        }
    } else if has_prefix(id, "settings:"@) {
        match permission_for_key(after_prefix(id, "settings:"@)) {
            Some(permission) => MenuCommand::OpenSettings(permission),
            None => MenuCommand::Malformed,
        }
    } else {
        MenuCommand::Unknown
    }
}

/// A longer run of digits is worth at least as much as its first part.
proof fn lemma_decimal_value_grows(s: Seq<char>, k: int)
    requires
        0 <= k <= s.len(),
        forall|i: int| 0 <= i < s.len() ==> is_digit(#[trigger] s[i]),
    ensures
        0 <= decimal_value(s.take(k)) <= decimal_value(s),
    decreases s.len(),
{
    if s.len() > 0 {
        assert forall|i: int| 0 <= i < s.drop_last().len() implies is_digit(
            #[trigger] s.drop_last()[i],
        ) by {
            assert(s.drop_last()[i] == s[i]);
        }
        if k == s.len() {
            assert(s.take(k) =~= s);
            lemma_decimal_value_grows(s.drop_last(), 0);
        } else {
            assert(s.take(k) =~= s.drop_last().take(k));
            lemma_decimal_value_grows(s.drop_last(), k);
        }
        assert(digit_value(s.last()) >= 0);
    } else {
        assert(s.take(k) =~= s);
    }
}

/// A number read from text is never negative, and no larger than the bound it was read under.
pub proof fn lemma_parsed_unsigned_bounds(s: Seq<char>, max: int)
    ensures
        parsed_unsigned(s, max) matches Some(value) ==> 0 <= value <= max,
{
    let digits = unsigned_digits(s);
    if parsed_unsigned(s, max) is Some {
        lemma_decimal_value_grows(digits, 0);
    }
}

/// The unsigned number `text` reads as, if it is one no larger than `max`.
pub fn parse_unsigned(text: &str, max: u64) -> (r: Option<u64>)
    ensures
        parsed_unsigned(text@, max as int) is None ==> r is None,
        parsed_unsigned(text@, max as int) matches Some(value) ==> r == Some(value as u64),
{
    let v = chars_of(text);
    let ghost digits = unsigned_digits(text@);
    let start: usize = if v.len() > 0 && v[0] == '+' {
        1
    } else {
        0
    };
    assert(digits =~= v@.subrange(start as int, v.len() as int));
    if start == v.len() {
        assert(digits.len() == 0);
        return None;
    }
    let mut value: u64 = 0;
    let mut i: usize = start;
    assert(digits.take(0) =~= Seq::<char>::empty());
    while i < v.len()
        invariant
            v@ == text@,
            digits == unsigned_digits(text@),
            start <= i <= v.len(),
            digits == v@.subrange(start as int, v.len() as int),
            forall|j: int| start <= j < i ==> is_digit(#[trigger] v@[j]),
            value == decimal_value(digits.take(i - start)),
            value <= max,
        decreases v.len() - i,
    {
        let c = v[i];
        if !('0' <= c && c <= '9') {
            assert(digits[i - start] == c);
            assert(!is_digit(digits[i - start]));
            return None;
        }
        let d = ((c as u32) - ('0' as u32)) as u64;
        assert(digits.take(i - start + 1).drop_last() =~= digits.take(i - start));
        assert(digits.take(i - start + 1).last() == c);
        if d > max || value > (max - d) / 10 {
            proof {
                assert(decimal_value(digits.take(i - start + 1)) == value * 10 + d);
                assert(value * 10 + d > max) by (nonlinear_arith)
                    requires
                        d > max || value > (max - d) / 10,
                        value >= 0,
                        d >= 0,
                        max >= 0,
                ;
                if forall|j: int| 0 <= j < digits.len() ==> is_digit(#[trigger] digits[j]) {
                    lemma_decimal_value_grows(digits, i - start + 1);
                }
            }
            return None;
        }
        assert(value * 10 + d <= max) by (nonlinear_arith)
            requires
                d <= max,
                value <= (max - d) / 10,
                value >= 0,
                d >= 0,
        ;
        value = value * 10 + d;
        i = i + 1;
    }
    assert(digits.take(v.len() - start) =~= digits);
    assert forall|j: int| 0 <= j < digits.len() implies is_digit(#[trigger] digits[j]) by {
        assert(digits[j] == v@[j + start]);
    }
    Some(value)
}

/// The rest of `text` after `prefix`, if it starts with it.
fn strip_prefix<'a>(text: &'a str, prefix: &str) -> (r: Option<&'a str>)
    ensures
        has_prefix(text@, prefix@) ==> (r matches Some(rest) && rest@ == after_prefix(
            text@,
            prefix@,
        )),
        !has_prefix(text@, prefix@) ==> r is None,
{
    let t = chars_of(text);
    let p = chars_of(prefix);
    if p.len() > t.len() {
        return None;
    }
    let mut i: usize = 0;
    while i < p.len()
        invariant
            t@ == text@,
            p@ == prefix@,
            p.len() <= t.len(),
            0 <= i <= p.len(),
            forall|j: int| 0 <= j < i ==> t@[j] == p@[j],
        decreases p.len() - i,
    {
        if t[i] != p[i] {
            assert(text@.subrange(0, prefix@.len() as int)[i as int] != prefix@[i as int]);
            return None;
        }
        i = i + 1;
    }
    assert(text@.subrange(0, prefix@.len() as int) =~= prefix@);
    Some(text.substring_char(p.len(), t.len()))
}

/// What the tray item `id` asks for.
pub fn parse_menu_id(id: &str) -> (r: MenuCommand)
    ensures
        r == menu_command(id@),
{
    if same_text(id, "quit") {
        return MenuCommand::Quit;
    }
    if same_text(id, "overlay") {
        return MenuCommand::ToggleOverlay;
    }
    if same_text(id, "permissions:refresh") {
        return MenuCommand::RefreshPermissions;
    }
    if let Some(rest) = strip_prefix(id, "interval:") {
        return match parse_unsigned(rest, u64::MAX) {
            Some(ms) => MenuCommand::SetInterval(ms),
            None => MenuCommand::Malformed,
        };
    }
    if let Some(rest) = strip_prefix(id, "opacity:") {
        let parsed = parse_unsigned(rest, 255);
        proof {
            lemma_parsed_unsigned_bounds(rest@, 255);
        }
        return match parsed {
            Some(value) => MenuCommand::SetOpacity(value as u8),
            None => MenuCommand::Malformed,
        };
    }
    if let Some(rest) = strip_prefix(id, "grant:") {
        return match Permission::from_key(rest) {
            Some(permission) => MenuCommand::Grant(permission),
            None => MenuCommand::Malformed,
        };
    }
    if let Some(rest) = strip_prefix(id, "settings:") {
        return match Permission::from_key(rest) {
            Some(permission) => MenuCommand::OpenSettings(permission),
            None => MenuCommand::Malformed,
        };
    }
    MenuCommand::Unknown
}

/// The character of the decimal digit `d`.
pub open spec fn digit_char(d: int) -> char {
    if d == 0 {
        '0'
    } else if d == 1 {
        '1'
    } else if d == 2 {
        '2'
    } else if d == 3 {
        '3'
    } else if d == 4 {
        '4'
    } else if d == 5 {
        '5'
    } else if d == 6 {
        '6'
    } else if d == 7 {
        '7'
    } else if d == 8 {
        '8'
    } else {
        '9'
    }
}

/// The decimal digits of `n`, without leading zeros, as `{}` formats an integer.
pub open spec fn decimal_digits(n: nat) -> Seq<char>
    decreases n,
{
    if n < 10 {
        seq![digit_char(n as int)]
    } else {
        decimal_digits(n / 10) + seq![digit_char((n % 10) as int)]
    }
}

/// The character of the decimal digit `d`.
fn digit(d: u64) -> (r: char)
    requires
        d < 10,
    ensures
        r == digit_char(d as int),
{
    if d == 0 {
        '0'
    } else if d == 1 {
        '1'
    } else if d == 2 {
        '2'
    } else if d == 3 {
        '3'
    } else if d == 4 {
        '4'
    } else if d == 5 {
        '5'
    } else if d == 6 {
        '6'
    } else if d == 7 {
        '7'
    } else if d == 8 {
        '8'
    } else {
        '9'
    }
}

/// `n` in decimal.
pub fn decimal_text(n: u64) -> (r: String)
    ensures
        r@ == decimal_digits(n as nat),
    decreases n,
{
    if n < 10 {
        let mut text = String::new();
        push_char(&mut text, digit(n));
        assert(text@ =~= seq![digit_char(n as int)]);
        text
    } else {
        let mut text = decimal_text(n / 10);
        push_char(&mut text, digit(n % 10));
        assert(text@ =~= decimal_digits((n / 10) as nat) + seq![digit_char((n % 10) as int)]);
        text
    }
}

/// Reading a number's decimal digits gives the number back.
pub proof fn lemma_decimal_digits_read_back(n: nat)
    ensures
        decimal_digits(n).len() > 0,
        forall|i: int| 0 <= i < decimal_digits(n).len() ==> is_digit(#[trigger] decimal_digits(n)[i]),
        decimal_value(decimal_digits(n)) == n,
    decreases n,
{
    let d = decimal_digits(n);
    if n < 10 {
        assert(d.drop_last() =~= Seq::<char>::empty());
        assert(d.last() == digit_char(n as int));
        assert(digit_value(digit_char(n as int)) == n);
        assert(decimal_value(d) == decimal_value(d.drop_last()) * 10 + digit_value(d.last()));
    } else {
        lemma_decimal_digits_read_back(n / 10);
        let head = decimal_digits(n / 10);
        assert(d.drop_last() =~= head);
        assert(d.last() == digit_char((n % 10) as int));
        assert(digit_value(digit_char((n % 10) as int)) == n % 10);
        assert forall|i: int| 0 <= i < d.len() implies is_digit(#[trigger] d[i]) by {
            if i < head.len() {
                assert(d[i] == head[i]);
            }
        }
        assert(decimal_value(d) == decimal_value(d.drop_last()) * 10 + digit_value(d.last()));
        assert(decimal_value(head) == n / 10);
        assert((n / 10) * 10 + n % 10 == n);
    }
}

/// `n` in decimal, with a leading minus sign when it is negative, as `{}` formats an integer.
pub open spec fn signed_decimal_digits(n: int) -> Seq<char> {
    if n < 0 {
        "-"@ + decimal_digits((-n) as nat)
    } else {
        decimal_digits(n as nat)
    }
}

/// `n` in decimal, with a leading minus sign when it is negative.
pub fn signed_decimal_text(n: i32) -> (r: String)
    ensures
        r@ == signed_decimal_digits(n as int),
{
    if n < 0 {
        let magnitude = (0i64 - (n as i64)) as u64;
        let mut text = String::from_str("-");
        text.append(decimal_text(magnitude).as_str());
        text
    } else {
        decimal_text(n as u64)
    }
}

/// The tray's label for the refresh interval `ms`.
pub fn interval_label(ms: u64) -> (r: String)
    ensures
        r@ == "every "@ + decimal_digits(ms as nat) + "ms"@,
{
    let mut label = String::from_str("every ");
    label.append(decimal_text(ms).as_str());
    label.append("ms");
    label
}

/// The tray's label for the overlay opacity `value`, in percent.
pub fn opacity_label(value: u8) -> (r: String)
    ensures
        r@ == decimal_digits(value as nat) + "%"@,
{
    let mut label = decimal_text(value as u64);
    label.append("%");
    label
}

/// The tray's label for the submenu of `permission`, showing its status.
pub fn permission_entry_label(permission: Permission, status: PermissionStatus) -> (r: String)
    ensures
        r@ == permission_label(permission) + " \u{b7} "@ + status_label(status),
{
    let mut label = String::from_str(permission.label());
    label.append(" \u{b7} ");
    label.append(status.label());
    label
}

/// Whether the tray offers to grant a permission in `status`: only while it is not granted.
pub fn can_grant(status: PermissionStatus) -> (r: bool)
    ensures
        r == (status != PermissionStatus::Granted),
{
    status != PermissionStatus::Granted
}

/// The id of the tray item that asks for `command`.
pub open spec fn item_id(command: MenuCommand) -> Seq<char> {
    match command {
        MenuCommand::Quit => "quit"@,
        MenuCommand::ToggleOverlay => "overlay"@,
        MenuCommand::RefreshPermissions => "permissions:refresh"@,
        MenuCommand::SetInterval(ms) => "interval:"@ + decimal_digits(ms as nat),
        MenuCommand::SetOpacity(value) => "opacity:"@ + decimal_digits(value as nat),
        MenuCommand::Grant(permission) => "grant:"@ + permission_key(permission),
        MenuCommand::OpenSettings(permission) => "settings:"@ + permission_key(permission),
        MenuCommand::Malformed => Seq::empty(),
        MenuCommand::Unknown => Seq::empty(),
    }
}

/// The id of the tray item that asks for `command`, which is one the tray offers.
pub fn menu_item_id(command: MenuCommand) -> (r: String)
    requires
        !(command is Malformed),
        !(command is Unknown),
    ensures
        r@ == item_id(command),
{
    match command {
        MenuCommand::Quit => String::from_str("quit"),
        MenuCommand::ToggleOverlay => String::from_str("overlay"),
        MenuCommand::RefreshPermissions => String::from_str("permissions:refresh"),
        MenuCommand::SetInterval(ms) => {
            let mut id = String::from_str("interval:");
            id.append(decimal_text(ms).as_str());
            id
        },
        MenuCommand::SetOpacity(value) => {
            let mut id = String::from_str("opacity:");
            id.append(decimal_text(value as u64).as_str());
            id
        },
        MenuCommand::Grant(permission) => {
            let mut id = String::from_str("grant:");
            id.append(permission.key());
            id
        },
        MenuCommand::OpenSettings(permission) => {
            let mut id = String::from_str("settings:");
            id.append(permission.key());
            id
        },
        MenuCommand::Malformed => String::new(),
        MenuCommand::Unknown => String::new(),
    }
}

/// Every item the tray builds reads back as the command it was built for.
pub proof fn lemma_item_ids_read_back(command: MenuCommand)
    requires
        !(command is Malformed),
        !(command is Unknown),
    ensures
        menu_command(item_id(command)) == command,
{
    reveal_strlit("quit");
    reveal_strlit("overlay");
    reveal_strlit("permissions:refresh");
    reveal_strlit("interval:");
    reveal_strlit("opacity:");
    reveal_strlit("grant:");
    reveal_strlit("settings:");
    let id = item_id(command);
    match command {
        MenuCommand::Quit => {
        },
        MenuCommand::ToggleOverlay => {
            assert("overlay"@[0] != "quit"@[0]);
        },
        MenuCommand::RefreshPermissions => {
            assert("permissions:refresh"@[0] != "quit"@[0]);
            assert("permissions:refresh"@[0] != "overlay"@[0]);
        },
        MenuCommand::SetInterval(ms) => {
            let digits = decimal_digits(ms as nat);
            lemma_decimal_digits_read_back(ms as nat);
            assert(id[0] == 'i');
            assert(id.subrange(0, 9) =~= "interval:"@);
            assert(after_prefix(id, "interval:"@) =~= digits);
            assert(unsigned_digits(digits) == digits) by {
                assert(is_digit(digits[0]));
            }
        },
        MenuCommand::SetOpacity(value) => {
            let digits = decimal_digits(value as nat);
            lemma_decimal_digits_read_back(value as nat);
            assert(id[0] == 'o' && id[1] == 'p');
            assert(id[0] != "interval:"@[0]);
            assert(id.subrange(0, 8) =~= "opacity:"@);
            assert(after_prefix(id, "opacity:"@) =~= digits);
            assert(unsigned_digits(digits) == digits) by {
                assert(is_digit(digits[0]));
            }
        },
        MenuCommand::Grant(permission) => {
            lemma_permission_key_round_trip(permission, permission_key(permission));
            assert(id[0] == 'g');
            assert(id.subrange(0, 6) =~= "grant:"@);
            assert(after_prefix(id, "grant:"@) =~= permission_key(permission));
        },
        MenuCommand::OpenSettings(permission) => {
            lemma_permission_key_round_trip(permission, permission_key(permission));
            assert(id[0] == 's');
            assert(id.subrange(0, 9) =~= "settings:"@);
            assert(after_prefix(id, "settings:"@) =~= permission_key(permission));
        },
        _ => {
        },
    }
}

} // verus!
