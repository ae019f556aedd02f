use vstd::prelude::*;
use crate::scan::{is_whitespace, leading_ws, trailing_ws, trim, trim_exec, trim_start};
use crate::sort::{lemma_lex_total, lemma_lex_transitive, lex_le, lex_le_exec, stable_sort, stable_sort_of, SortKey};
use crate::text::{chars_of, push_str, string_of};
use vstd::string::*;

verus! {

/// The outcome of a USB control action.
#[derive(Clone, Debug)]
pub struct ActionResult {
    pub ok: bool,
    pub message: String,
}

/// A successful outcome with the given message.
pub fn ok(msg: String) -> (r: ActionResult)
    ensures
        r.ok,
        r.message@ == msg@,
{
    ActionResult { ok: true, message: msg }
}

/// A failed outcome with the given message.
pub fn err(msg: String) -> (r: ActionResult)
    ensures
        !r.ok,
        r.message@ == msg@,
{
    ActionResult { ok: false, message: msg }
}

/// A top-level USB device as sysfs describes it.
#[derive(Clone, Debug)]
pub struct UsbDevice {
    pub device_id: String,
    pub vendor_id: String,
    pub product_id: String,
    pub manufacturer: String,
    pub product: String,
    pub authorized: bool,
}

impl SortKey for UsbDevice {
    open spec fn key_le(self, other: Self) -> bool {
        lex_le(self.device_id@, other.device_id@)
    }

    fn le(&self, other: &Self) -> (r: bool) {
        lex_le_exec(&chars_of(self.device_id.as_str()), &chars_of(other.device_id.as_str()))
    }

    proof fn lemma_total(a: Self, b: Self) {
        lemma_lex_total(a.device_id@, b.device_id@);
    }

    proof fn lemma_transitive(a: Self, b: Self, c: Self) {
        lemma_lex_transitive(a.device_id@, b.device_id@, c.device_id@);
    }
}

/// The contents of a sysfs attribute file without surrounding whitespace.
pub open spec fn attr(raw: Option<String>) -> Option<Seq<char>> {
    match raw {
        Some(t) => Some(trim(t@)),
        None => None,
    }
}

fn attr_exec(raw: Option<String>) -> (r: Option<String>)
    ensures
        match r {
            Some(s) => attr(raw) == Some(s@),
            None => attr(raw) is None,
        },
{
    match raw {
        Some(t) => Some(string_of(&trim_exec(&chars_of(t.as_str())))),
        None => None,
    }
}

/// An attribute read as a string, empty when it could not be read.
pub open spec fn attr_or_empty(raw: Option<String>) -> Seq<char> {
    match attr(raw) {
        Some(s) => s,
        None => Seq::empty(),
    }
}

/// Whether a device counts as authorized, given its `authorized` attribute:
/// unless the attribute reads otherwise than "1", it does.
pub open spec fn reads_authorized(raw: Option<String>) -> bool {
    match attr(raw) {
        Some(a) => a == "1"@,
        None => true,
    }
}

/// The device described by the sysfs attributes read from `/sys/bus/usb/devices/<device_id>`
/// (`None` for an attribute that could not be read). Only top-level devices have
/// `idVendor`, so without it the entry is not a device. A device counts as
/// authorized unless its `authorized` attribute says otherwise.
pub fn usb_device(
    device_id: String,
    id_vendor: Option<String>,
    id_product: Option<String>,
    manufacturer: Option<String>,
    product: Option<String>,
    authorized: Option<String>,
) -> (r: Option<UsbDevice>)
    ensures
        r is Some <==> id_vendor is Some,
        r matches Some(d) ==> {
            &&& d.device_id@ == device_id@
            &&& Some(d.vendor_id@) == attr(id_vendor)
            &&& d.product_id@ == attr_or_empty(id_product)
            &&& d.manufacturer@ == attr_or_empty(manufacturer)
            &&& d.product@ == attr_or_empty(product)
            &&& d.authorized == reads_authorized(authorized)
        },
{
    let vendor_id = match attr_exec(id_vendor) {
        Some(v) => v,
        None => return None,
    };
    let product_id = match attr_exec(id_product) {
        Some(v) => v,
        None => String::new(),
    };
    let manufacturer = match attr_exec(manufacturer) {
        Some(v) => v,
        None => String::new(),
    };
    let product = match attr_exec(product) {
        Some(v) => v,
        None => String::new(),
    };
    let authorized = match attr_exec(authorized) {
        Some(a) => {
            let one = String::from_str("1");
            a == one
        },
        None => true,
    };
    Some(UsbDevice { device_id, vendor_id, product_id, manufacturer, product, authorized })
}

/// The devices ordered by device id.
pub fn sort_devices(devices: Vec<UsbDevice>) -> (r: Vec<UsbDevice>)
    ensures
        stable_sort_of(r@, devices@),
{
    stable_sort(devices)
}

/// The sysfs file that authorizes a device.
pub fn authorized_path(device_id: &str) -> (r: String)
    ensures
        r@ == "/sys/bus/usb/devices/"@ + device_id@ + "/authorized"@,
{
    let mut r = String::new();
    push_str(&mut r, "/sys/bus/usb/devices/");
    push_str(&mut r, device_id);
    push_str(&mut r, "/authorized");
    r
}

/// The text that authorizes ("1") or deauthorizes ("0") a device.
pub open spec fn authorized_text(authorized: bool) -> Seq<char> {
    if authorized { "1"@ } else { "0"@ }
}

/// The value written to the `authorized` attribute.
pub fn authorized_value(authorized: bool) -> (r: &'static str)
    ensures
        r@ == authorized_text(authorized),
{
    if authorized { "1" } else { "0" }
}

/// What authorizing writes reads back: once a device's `authorized`
/// attribute holds the value written for `authorized`, the device is listed
/// with that authorization.
pub proof fn lemma_authorized_round_trip(authorized: bool, attribute: String)
    requires
        attribute@ == authorized_text(authorized),
    ensures
        reads_authorized(Some(attribute)) == authorized,
{
    reveal_strlit("1");
    reveal_strlit("0");
    let s = attribute@;
    assert(s.len() == 1 && !is_whitespace(s[0]));
    assert(leading_ws(s) == 0);
    assert(trim_start(s) =~= s);
    assert(trailing_ws(s) == 0);
    assert(trim(s) =~= s);
}

/// The outcome of writing a device's `authorized` attribute at `path`.
pub fn set_authorized(device_id: &str, authorized: bool, path: &str, write: Result<(), String>) -> (r: ActionResult)
    ensures
        r.ok == write is Ok,
        r.message@ == (match write {
            Ok(_) => (if authorized { "Authorized"@ } else { "Deauthorized"@ }) + " device "@ + device_id@,
            Err(e) => "Failed to write "@ + path@ + ": "@ + e@
                + " (usually needs root — deauthorizing your own keyboard/mouse this way can lock you out until replug, so double-check the device)"@,
        }),
{
    let mut m = String::new();
    match write {
        Ok(()) => {
            push_str(&mut m, if authorized { "Authorized" } else { "Deauthorized" });
            push_str(&mut m, " device ");
            push_str(&mut m, device_id);
            ok(m)
        },
        Err(e) => {
            push_str(&mut m, "Failed to write ");
            push_str(&mut m, path);
            push_str(&mut m, ": ");
            push_str(&mut m, e.as_str());
            push_str(&mut m, " (usually needs root — deauthorizing your own keyboard/mouse this way can lock you out until replug, so double-check the device)");
            err(m)
        },
    }
}

} // verus!
