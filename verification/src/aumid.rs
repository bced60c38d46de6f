//! Windows toast attribution: the AppUserModelID registry entries the app
//! writes at start-up, and the wide strings and value bytes those writes carry.
use vstd::prelude::*;
use crate::text::{chars_of, concat};

verus! {

// ---------------------------------------------------------------- UTF-16

/// The UTF-16 code units of one character.
pub open spec fn utf16_units(c: char) -> Seq<u16> {
    let n = c as u32;
    if n < 0x10000 {
        seq![n as u16]
    } else {
        let m = (n - 0x10000) as u32;
        seq![(0xd800 + m / 1024) as u16, (0xdc00 + m % 1024) as u16]
    }
}

/// The UTF-16 encoding of a character sequence (`str::encode_utf16`).
pub open spec fn utf16(s: Seq<char>) -> Seq<u16>
    decreases s.len(),
{
    if s.len() == 0 {
        seq![]
    } else {
        utf16(s.drop_last()) + utf16_units(s.last())
    }
}

/// UTF-16 code units of `s` followed by a terminating 0 (a wide C string).
pub fn str_to_wide(s: &str) -> (r: Vec<u16>)
    ensures
        r@ == utf16(s@).push(0),
{
    let v = chars_of(s);
    let mut out: Vec<u16> = Vec::new();
    let mut i: usize = 0;
    while i < v.len()
        invariant
            i <= v.len(),
            out@ == utf16(v@.take(i as int)),
        decreases v.len() - i,
    {
        let c = v[i];
        let n = c as u32;
        let ghost before = out@;
        proof {
            assert(v@.take(i + 1).drop_last() =~= v@.take(i as int));
            assert(v@.take(i + 1).last() == c);
        }
        if n < 0x10000 {
            out.push(n as u16);
            proof {
                assert(out@ =~= before + utf16_units(c));
            }
        } else {
            let m = n - 0x10000;
            out.push((0xd800 + m / 1024) as u16);
            out.push((0xdc00 + m % 1024) as u16);
            proof {
                assert(out@ =~= before + utf16_units(c));
            }
        }
        i += 1;
    }
    proof {
        assert(v@.take(v.len() as int) =~= v@);
    }
    out.push(0);
    out
}

// ---------------------------------------------------------------- registry entries

/// A registry value as `RegSetValueExW` stores it.
pub enum RegistryValue {
    /// `REG_SZ`: a string.
    Text(String),
    /// `REG_DWORD`: a 32-bit number.
    Dword(u32),
}

/// One value written under `HKEY_CURRENT_USER`.
pub struct RegistryWrite {
    /// The key's path below `HKEY_CURRENT_USER`.
    pub key: String,
    /// The value's name; `None` is the key's default value.
    pub name: Option<String>,
    pub value: RegistryValue,
}

/// The key that registers `aumid` as an application user model ID.
pub open spec fn aumid_key(aumid: Seq<char>) -> Seq<char> {
    "Software\\Classes\\AppUserModelId\\"@ + aumid
}

/// The key that holds the notification settings of `aumid`.
pub open spec fn toast_settings_key(aumid: Seq<char>) -> Seq<char> {
    "Software\\Microsoft\\Windows\\CurrentVersion\\Notifications\\Settings\\"@ + aumid
}

/// The registry writes that let Windows attribute toasts to `aumid` and show
/// them: the ID's own key, whose default value is the ID, and `ToastEnabled` = 1
/// under its notification settings. Writing them again changes nothing.
pub fn register_aumid_registry(aumid: &str) -> (r: Vec<RegistryWrite>)
    ensures
        r.len() == 2,
        r[0].key@ == aumid_key(aumid@),
        r[0].name is None,
        r[0].value matches RegistryValue::Text(v) && v@ == aumid@,
        r[1].key@ == toast_settings_key(aumid@),
        r[1].name matches Some(n) && n@ == "ToastEnabled"@,
        r[1].value matches RegistryValue::Dword(d) && d == 1,
{
    let mut r: Vec<RegistryWrite> = Vec::new();
    r.push(
        RegistryWrite {
            key: concat("Software\\Classes\\AppUserModelId\\", aumid),
            name: None,
            value: RegistryValue::Text(aumid.to_owned()),
        },
    );
    r.push(
        RegistryWrite {
            key: concat("Software\\Microsoft\\Windows\\CurrentVersion\\Notifications\\Settings\\", aumid),
            name: Some("ToastEnabled".to_owned()),
            value: RegistryValue::Dword(1),
        },
    );
    r
}

/// Little-endian bytes of UTF-16 code units.
pub open spec fn units_le_bytes(w: Seq<u16>) -> Seq<u8>
    decreases w.len(),
{
    if w.len() == 0 {
        seq![]
    } else {
        units_le_bytes(w.drop_last()) + seq![(w.last() % 256) as u8, (w.last() / 256) as u8]
    }
}

/// The bytes that `RegSetValueExW` receives for a value: a string as its
/// NUL-terminated UTF-16 units, a number as its four little-endian bytes.
pub open spec fn value_bytes_of(v: RegistryValue) -> Seq<u8> {
    match v {
        RegistryValue::Text(s) => units_le_bytes(utf16(s@).push(0)),
        RegistryValue::Dword(d) => seq![
            (d % 256) as u8,
            ((d / 256) % 256) as u8,
            ((d / 65536) % 256) as u8,
            (d / 16777216) as u8,
        ],
    }
}

/// The data bytes of a registry value, in the order Windows (little-endian) stores them.
pub fn value_bytes(v: &RegistryValue) -> (r: Vec<u8>)
    ensures
        r@ == value_bytes_of(*v),
{
    match v {
        RegistryValue::Text(s) => {
            let w = str_to_wide(s.as_str());
            let mut out: Vec<u8> = Vec::new();
            let mut i: usize = 0;
            while i < w.len()
                invariant
                    i <= w.len(),
                    out@ == units_le_bytes(w@.take(i as int)),
                decreases w.len() - i,
            {
                proof {
                    assert(w@.take(i + 1).drop_last() =~= w@.take(i as int));
                    assert(w@.take(i + 1).last() == w@[i as int]);
                }
                out.push((w[i] % 256) as u8);
                out.push((w[i] / 256) as u8);
                i += 1;
            }
            proof {
                assert(w@.take(w.len() as int) =~= w@);
            }
            out
        },
        RegistryValue::Dword(d) => {
            let d = *d;
            let mut out: Vec<u8> = Vec::new();
            out.push((d % 256) as u8);
            out.push(((d / 256) % 256) as u8);
            out.push(((d / 65536) % 256) as u8);
            out.push((d / 16777216) as u8);
            out
        },
    }
}

} // verus!
