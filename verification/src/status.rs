//! Data for the indicators of the panel.

use vstd::prelude::*;

use crate::desktop::utf8_len_bytes;
use crate::ipc::{parse_u8, texts, u8_value};
use crate::text::{
    bytes_less, bytes_lt, chars_of, decimal, decimal_string, eq_ascii_case_insensitive, eq_ignore_ascii_case,
    has_prefix, lemma_bytes_lt_asym, lemma_bytes_lt_trans, push_char,
    starts_with, string_from, string_of, trim, trimmed,
};

verus! {

/// The state of the battery.
#[derive(Debug, Clone, PartialEq)]
pub struct Battery {
    /// Charge in percent.
    pub percent: u8,
    pub charging: bool,
}

/// The icon for a battery state: charging has its own icon, otherwise the
/// charge picks one of five levels.
pub open spec fn battery_icon(b: Battery) -> Seq<char> {
    if b.charging {
        "battery-good-charging-symbolic"@
    } else if b.percent <= 10 {
        "battery-empty-symbolic"@
    } else if b.percent <= 30 {
        "battery-caution-symbolic"@
    } else if b.percent <= 60 {
        "battery-low-symbolic"@
    } else if b.percent <= 90 {
        "battery-good-symbolic"@
    } else {
        "battery-full-symbolic"@
    }
}

impl Battery {
    /// The icon name that matches the charge.
    pub fn icon_name(&self) -> (r: &'static str)
        ensures
            r@ == battery_icon(*self),
    {
        if self.charging {
            return "battery-good-charging-symbolic";
        }
        if self.percent <= 10 {
            "battery-empty-symbolic"
        } else if self.percent <= 30 {
            "battery-caution-symbolic"
        } else if self.percent <= 60 {
            "battery-low-symbolic"
        } else if self.percent <= 90 {
            "battery-good-symbolic"
        } else {
            "battery-full-symbolic"
        }
    }

    /// The text next to the icon: the charge and a percent sign.
    pub fn label(&self) -> (r: String)
        ensures
            r@ == decimal(self.percent as nat).push('%'),
    {
        let mut s = decimal_string(self.percent as u64);
        push_char(&mut s, '%');
        s
    }
}

/// A window title cut to a reasonable length.
///
/// Titles such as "document.txt — Edit — Editor" stretch the panel and push
/// the clock out, so long text is cut and ends with an ellipsis, which counts
/// towards the limit. Characters are counted, not bytes.
pub open spec fn shortened(title: Seq<char>, max_chars: nat) -> Seq<char> {
    if title.len() <= max_chars {
        title
    } else if max_chars == 0 {
        Seq::empty()
    } else {
        title.take(max_chars - 1).push('…')
    }
}

pub fn shorten_title(title: &str, max_chars: usize) -> (r: String)
    ensures
        r@ == shortened(title@, max_chars as nat),
{
    let chars = chars_of(title);
    if chars.len() <= max_chars {
        return title.to_owned();
    }
    if max_chars == 0 {
        return String::new();
    }
    let keep = max_chars - 1;
    let mut s = string_of(&chars, 0, keep);
    push_char(&mut s, '…');
    assert(chars@.subrange(0, keep as int) =~= title@.take(keep as int));
    s
}

/// An entry of `/sys/class/power_supply` that is a battery: the power
/// adapter lies there too, but has no charge.
pub open spec fn is_battery_name(name: Seq<char>) -> bool {
    has_prefix(name, "BAT"@)
}

/// Entry `i` is the battery that comes first in byte order. The order in
/// which a directory is read is arbitrary; taking the first by name keeps the
/// indicator from jumping between two batteries.
pub open spec fn is_first_battery(names: Seq<Seq<char>>, i: int) -> bool {
    &&& 0 <= i < names.len()
    &&& is_battery_name(names[i])
    &&& forall|j: int| 0 <= j < names.len() && is_battery_name(#[trigger] names[j])
        ==> !bytes_lt(utf8_len_bytes(names[j]), utf8_len_bytes(names[i]))
}

/// Picks the battery among the entries of `/sys/class/power_supply`.
pub fn pick_battery(names: &Vec<String>) -> (r: Option<usize>)
    ensures
        match r {
            Some(i) => is_first_battery(texts(names@), i as int),
            None => forall|j: int| 0 <= j < names@.len() ==> !is_battery_name(#[trigger] names@[j]@),
        },
{
    let ghost ns = texts(names@);
    let prefix = chars_of("BAT");
    let mut best: Option<usize> = None;
    let mut i: usize = 0;
    while i < names.len()
        invariant
            i <= names@.len(),
            ns == texts(names@),
            prefix@ == "BAT"@,
            match best {
                Some(b) => b < i && is_battery_name(ns[b as int]) && forall|j: int| 0 <= j < i && is_battery_name(#[trigger] ns[j])
                    ==> !bytes_lt(utf8_len_bytes(ns[j]), utf8_len_bytes(ns[b as int])),
                None => forall|j: int| 0 <= j < i ==> !is_battery_name(#[trigger] ns[j]),
            },
        decreases names@.len() - i,
    {
        let name = chars_of(names[i].as_str());
        assert(ns[i as int] == names@[i as int]@);
        if starts_with(&name, &prefix) {
            match best {
                None => {
                    proof {
                        lemma_bytes_lt_asym(utf8_len_bytes(ns[i as int]), utf8_len_bytes(ns[i as int]));
                    }
                    best = Some(i);
                },
                Some(b) => {
                    let earlier = bytes_less(names[i].as_str().as_bytes(), names[b].as_str().as_bytes());
                    assert(ns[b as int] == names@[b as int]@);
                    if earlier {
                        proof {
                            let bi = utf8_len_bytes(ns[i as int]);
                            let bb = utf8_len_bytes(ns[b as int]);
                            assert forall|j: int| 0 <= j < i + 1 && is_battery_name(#[trigger] ns[j])
                                implies !bytes_lt(utf8_len_bytes(ns[j]), bi) by {
                                let bj = utf8_len_bytes(ns[j]);
                                if j < i {
                                    if bytes_lt(bj, bi) {
                                        lemma_bytes_lt_trans(bj, bi, bb);
                                    }
                                } else {
                                    lemma_bytes_lt_asym(bi, bi);
                                }
                            }
                        }
                        best = Some(i);
                    } else {
                        proof {
                            let bi = utf8_len_bytes(ns[i as int]);
                            let bb = utf8_len_bytes(ns[b as int]);
                            assert(!bytes_lt(bi, bb));
                        }
                    }
                },
            }
        }
        i = i + 1;
    }
    match best {
        Some(b) => {
            assert(is_first_battery(ns, b as int));
        },
        None => {
            assert forall|j: int| 0 <= j < names@.len() implies !is_battery_name(#[trigger] names@[j]@) by {
                assert(ns[j] == names@[j]@);
            }
        },
    }
    best
}

/// What a battery's `capacity` and `status` files say: the charge is a byte
/// capped at a hundred, anything else in the capacity file means no reading,
/// and the battery charges when the status says so in any case.
pub open spec fn battery_reading(capacity: Seq<char>, status: Seq<char>) -> Option<Battery> {
    match u8_value(trim(capacity)) {
        Some(p) => Some(Battery {
            percent: if p < 100 { p } else { 100 },
            charging: eq_ignore_ascii_case(trim(status), "charging"@),
        }),
        None => None,
    }
}

/// Reads the state of a battery from the texts of its `capacity` and
/// `status` files (an empty status when that file is missing).
pub fn battery_from(capacity: &str, status: &str) -> (r: Option<Battery>)
    ensures
        r == battery_reading(capacity@, status@),
{
    let cap_chars = chars_of(capacity);
    let cap = string_from(&trimmed(&cap_chars));
    let percent = match parse_u8(cap.as_str()) {
        Some(p) => p,
        None => return None,
    };
    let status_chars = chars_of(status);
    let st = trimmed(&status_chars);
    let charging_word = chars_of("charging");
    let charging = eq_ascii_case_insensitive(&st, &charging_word);
    Some(Battery { percent: if percent < 100 { percent } else { 100 }, charging })
}

} // verus!
