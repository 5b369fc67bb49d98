//! Peripherals: audio devices, keyboards and mice that the platform lists.
use vstd::prelude::*;
use crate::models::{opt_view, PeripheralDevice, PeripheralDeviceView, PeripheralKind};
use crate::text::{
    lines, lines_exec, splitn, splitn_exec, views,
    contains, contains_str, eq_chars, eq_str, from_chars, lowercase, starts_with,
    starts_with_chars, strip_suffix, strip_suffix_exec, to_chars, to_lowercase_chars, trim,
    trim_chars, trim_str,
};

verus! {

/// One row of the Windows device list (`Win32_PnPEntity`), as plain values.
pub struct PnpRecord {
    pub name: Option<String>,
    pub manufacturer: Option<String>,
    pub pnp_class: Option<String>,
    pub device_id: Option<String>,
}

pub struct PnpRecordView {
    pub name: Option<Seq<char>>,
    pub manufacturer: Option<Seq<char>>,
    pub pnp_class: Option<Seq<char>>,
    pub device_id: Option<Seq<char>>,
}

impl View for PnpRecord {
    type V = PnpRecordView;

    open spec fn view(&self) -> PnpRecordView {
        PnpRecordView {
            name: opt_view(self.name),
            manufacturer: opt_view(self.manufacturer),
            pnp_class: opt_view(self.pnp_class),
            device_id: opt_view(self.device_id),
        }
    }
}

pub open spec fn or_empty(o: Option<Seq<char>>) -> Seq<char> {
    match o {
        Some(s) => s,
        None => seq![],
    }
}

/// The device classes that can hold a peripheral. Audio endpoints are left out: they
/// repeat every physical audio device as a virtual speaker or microphone.
pub open spec fn is_relevant_class(c: Seq<char>) -> bool {
    c == "hidclass"@ || c == "media"@ || c == "keyboard"@ || c == "mouse"@
}

/// A (lower-case) name that only generic or internal devices carry.
pub open spec fn has_noise_name(n: Seq<char>) -> bool {
    ||| contains(n, "hid-compliant"@)
    ||| contains(n, "usb input device"@)
    ||| contains(n, "usb composite device"@)
    ||| contains(n, "usb root hub"@)
    ||| contains(n, "usb hub"@)
    ||| contains(n, "generic usb hub"@)
    ||| contains(n, "virtual"@)
    ||| contains(n, "composite"@)
    ||| contains(n, "system speaker"@)
    ||| contains(n, "pc speaker"@)
    ||| contains(n, "hid keyboard device"@)
    ||| contains(n, "hid-keyboard"@)
    ||| contains(n, "hid mouse"@)
}

/// A device that is internal, virtual or generic rather than a peripheral, given its
/// name and its maker already lower-cased, and its (lower-case) device id.
pub open spec fn noise_lower(n: Seq<char>, m: Seq<char>, device_id: Seq<char>) -> bool {
    ||| (contains(m, "amd"@) || contains(m, "advanced micro devices"@) || contains(m, "nvidia"@))
        && (contains(n, "high definition audio"@) || contains(n, "streaming audio"@) || contains(
        n,
        "hdmi audio"@,
    ))
    ||| has_noise_name(n)
    ||| starts_with(n, "microsoft "@)
    ||| (starts_with(device_id, "acpi\\"@) || starts_with(device_id, "pci\\"@)) && !contains(
        device_id,
        "usb\\"@,
    ) && !contains(device_id, "usbvid"@)
}

/// A device that is internal, virtual or generic rather than a peripheral.
pub open spec fn noise(name: Seq<char>, manufacturer: Option<Seq<char>>, device_id: Seq<char>) -> bool {
    noise_lower(lowercase(name), lowercase(or_empty(manufacturer)), device_id)
}

/// The kind of a peripheral, by its device class and its name already lower-cased.
pub open spec fn kind_of_lower(n: Seq<char>, class: Seq<char>) -> PeripheralKind {
    if class == "media"@ || class == "audioendpoint"@ || contains(n, "audio"@) || contains(
        n,
        "dac"@,
    ) || contains(n, "microphone"@) || contains(n, "headset"@) || contains(n, "headphone"@)
        || contains(n, "speaker"@) || contains(n, "sound"@) {
        PeripheralKind::Audio
    } else if class == "keyboard"@ || contains(n, "keyboard"@) {
        PeripheralKind::Keyboard
    } else if class == "mouse"@ || contains(n, "mouse"@) {
        PeripheralKind::Mouse
    } else {
        PeripheralKind::Other
    }
}

/// The kind of a peripheral, by its device class and name.
pub open spec fn kind_of(name: Seq<char>, class: Seq<char>) -> PeripheralKind {
    kind_of_lower(lowercase(name), class)
}

/// The position of the last `c` in `s` before position `j`, or -1.
pub open spec fn last_index(s: Seq<char>, c: char, j: int) -> int
    decreases j,
{
    if j <= 0 {
        -1
    } else if s[j - 1] == c {
        j - 1
    } else {
        last_index(s, c, j - 1)
    }
}

/// A device id without its last `\`-separated segment (the whole id when it has none).
pub open spec fn id_root(id: Seq<char>) -> Seq<char> {
    let k = last_index(id, '\\', id.len() as int);
    if k >= 0 {
        id.subrange(0, k)
    } else {
        id
    }
}

/// The peripheral that a device row describes, unless it is out of class, noise, or nameless.
pub open spec fn device_of(r: PnpRecordView) -> Option<PeripheralDeviceView> {
    match r.name {
        None => None,
        Some(raw) => {
            let name = trim(raw);
            let class = lowercase(or_empty(r.pnp_class));
            let manufacturer = match r.manufacturer {
                Some(m) => if trim(m).len() > 0 {
                    Some(trim(m))
                } else {
                    None
                },
                None => None,
            };
            let id = lowercase(or_empty(r.device_id));
            if !is_relevant_class(class) || noise(name, manufacturer, id) {
                None
            } else {
                Some(
                    PeripheralDeviceView {
                        name,
                        manufacturer,
                        kind: kind_of(name, class),
                        device_id_root: id_root(id),
                    },
                )
            }
        },
    }
}

/// The peripherals of the device rows, in their order.
pub open spec fn devices_of(rs: Seq<PnpRecordView>) -> Seq<PeripheralDeviceView>
    decreases rs.len(),
{
    if rs.len() == 0 {
        seq![]
    } else {
        devices_of(rs.drop_last()) + match device_of(rs.last()) {
            Some(d) => seq![d],
            None => seq![],
        }
    }
}

/// `a` comes strictly before `b` in the lexicographic order of characters
/// (the order of `String`'s `cmp`).
pub open spec fn lex_lt(a: Seq<char>, b: Seq<char>) -> bool
    decreases a.len(),
{
    if b.len() == 0 {
        false
    } else if a.len() == 0 {
        true
    } else if (a[0] as int) < (b[0] as int) {
        true
    } else if a[0] == b[0] {
        lex_lt(a.drop_first(), b.drop_first())
    } else {
        false
    }
}

pub open spec fn rank(k: PeripheralKind) -> int {
    match k {
        PeripheralKind::Audio => 0,
        PeripheralKind::Keyboard => 1,
        PeripheralKind::Mouse => 2,
        PeripheralKind::Other => 3,
    }
}

/// `x` sorts strictly before `y`: by kind (Audio, Keyboard, Mouse, Other) when
/// `by_kind`, else by device id root and then name.
pub open spec fn before(x: PeripheralDeviceView, y: PeripheralDeviceView, by_kind: bool) -> bool {
    if by_kind {
        rank(x.kind) < rank(y.kind)
    } else {
        lex_lt(x.device_id_root, y.device_id_root) || (x.device_id_root == y.device_id_root
            && lex_lt(x.name, y.name))
    }
}

/// Where a stable insertion puts `x` into `t`, looking from position `j` backwards.
pub open spec fn ins_pos(t: Seq<PeripheralDeviceView>, x: PeripheralDeviceView, j: int, by_kind: bool) -> int
    decreases j,
{
    if j > 0 && before(x, t[j - 1], by_kind) {
        ins_pos(t, x, j - 1, by_kind)
    } else {
        j
    }
}

pub open spec fn insert_sorted(t: Seq<PeripheralDeviceView>, x: PeripheralDeviceView, by_kind: bool) -> Seq<
    PeripheralDeviceView,
> {
    t.insert(ins_pos(t, x, t.len() as int, by_kind), x)
}

/// The stable sort of `s`: equal elements keep their order.
pub open spec fn stable_sort(s: Seq<PeripheralDeviceView>, by_kind: bool) -> Seq<PeripheralDeviceView>
    decreases s.len(),
{
    if s.len() == 0 {
        seq![]
    } else {
        insert_sorted(stable_sort(s.drop_last(), by_kind), s.last(), by_kind)
    }
}

/// A peripheral name without one of the profile suffixes under which the same
/// audio device registers more than once.
pub open spec fn strip_one(n: Seq<char>, suffix: Seq<char>) -> Option<Seq<char>> {
    match strip_suffix(n, suffix) {
        Some(b) => if b.len() > 0 {
            Some(b)
        } else {
            None
        },
        None => None,
    }
}

pub open spec fn strip_audio(n: Seq<char>) -> Seq<char> {
    if let Some(b) = strip_one(n, " Hands-Free AG Audio"@) {
        b
    } else if let Some(b) = strip_one(n, " Hands-Free"@) {
        b
    } else if let Some(b) = strip_one(n, " Stereo Microphone"@) {
        b
    } else if let Some(b) = strip_one(n, " Stereo"@) {
        b
    } else if let Some(b) = strip_one(n, " Microphone"@) {
        b
    } else if let Some(b) = strip_one(n, " Speakers"@) {
        b
    } else if let Some(b) = strip_one(n, " Headphones"@) {
        b
    } else if let Some(b) = strip_one(n, " Headset"@) {
        b
    } else if let Some(b) = strip_one(n, " LE Audio"@) {
        b
    } else if let Some(b) = strip_one(n, " Avrcp Transport"@) {
        b
    } else if let Some(b) = strip_one(n, " Audio"@) {
        b
    } else {
        n
    }
}

/// `a` is the same physical device as `b`, kept before it: the same non-empty
/// device id root, or the same name once profile suffixes are stripped.
pub open spec fn same_device(a: PeripheralDeviceView, b: PeripheralDeviceView) -> bool {
    (a.device_id_root == b.device_id_root && a.device_id_root.len() > 0) || strip_audio(a.name)
        == strip_audio(b.name)
}

/// `Vec::dedup_by(same_device)`: each element is dropped when it is the same device
/// as the last element kept.
pub open spec fn dedup(s: Seq<PeripheralDeviceView>) -> Seq<PeripheralDeviceView>
    decreases s.len(),
{
    if s.len() == 0 {
        seq![]
    } else {
        let r = dedup(s.drop_last());
        if r.len() > 0 && same_device(s.last(), r.last()) {
            r
        } else {
            r.push(s.last())
        }
    }
}

/// The peripherals of the device rows: sorted by device id root and name, with
/// repeated registrations of one device dropped, then sorted by kind.
pub open spec fn peripherals_of(rs: Seq<PnpRecordView>) -> Seq<PeripheralDeviceView> {
    stable_sort(dedup(stable_sort(devices_of(rs), false)), true)
}


fn any_contains(n: &Vec<char>, pats: &Vec<&str>) -> (b: bool)
    ensures
        b == exists|i: int| 0 <= i < pats@.len() && contains(n@, #[trigger] pats@[i]@),
{
    let mut k: usize = 0;
    while k < pats.len()
        invariant
            k <= pats@.len(),
            forall|i: int| 0 <= i < k ==> !contains(n@, #[trigger] pats@[i]@),
        decreases pats@.len() - k,
    {
        if contains_str(n, pats[k]) {
            return true;
        }
        k = k + 1;
    }
    false
}

fn noise_name(n: &Vec<char>) -> (b: bool)
    ensures
        b == has_noise_name(n@),
{
    let pats: Vec<&str> = vec![
        "hid-compliant",
        "usb input device",
        "usb composite device",
        "usb root hub",
        "usb hub",
        "generic usb hub",
        "virtual",
        "composite",
        "system speaker",
        "pc speaker",
        "hid keyboard device",
        "hid-keyboard",
        "hid mouse",
    ];
    let b = any_contains(n, &pats);
    proof {
        if has_noise_name(n@) {
            if contains(n@, "hid-compliant"@) { assert(contains(n@, pats@[0]@)); }
            if contains(n@, "usb input device"@) { assert(contains(n@, pats@[1]@)); }
            if contains(n@, "usb composite device"@) { assert(contains(n@, pats@[2]@)); }
            if contains(n@, "usb root hub"@) { assert(contains(n@, pats@[3]@)); }
            if contains(n@, "usb hub"@) { assert(contains(n@, pats@[4]@)); }
            if contains(n@, "generic usb hub"@) { assert(contains(n@, pats@[5]@)); }
            if contains(n@, "virtual"@) { assert(contains(n@, pats@[6]@)); }
            if contains(n@, "composite"@) { assert(contains(n@, pats@[7]@)); }
            if contains(n@, "system speaker"@) { assert(contains(n@, pats@[8]@)); }
            if contains(n@, "pc speaker"@) { assert(contains(n@, pats@[9]@)); }
            if contains(n@, "hid keyboard device"@) { assert(contains(n@, pats@[10]@)); }
            if contains(n@, "hid-keyboard"@) { assert(contains(n@, pats@[11]@)); }
            if contains(n@, "hid mouse"@) { assert(contains(n@, pats@[12]@)); }
        }
    }
    b
}

fn noise_chars(name: &Vec<char>, manufacturer: &Option<Vec<char>>, device_id: &Vec<char>) -> (b: bool)
    ensures
        b == noise(
            name@,
            match manufacturer {
                Some(m) => Some(m@),
                None => None,
            },
            device_id@,
        ),
{
    let n = to_lowercase_chars(name);
    let m = match manufacturer {
        Some(m) => to_lowercase_chars(m),
        None => {
            let e: Vec<char> = Vec::new();
            assert(e@ =~= or_empty(None));
            to_lowercase_chars(&e)
        },
    };
    noise_lower_chars(&n, &m, device_id)
}

fn noise_lower_chars(n: &Vec<char>, m: &Vec<char>, device_id: &Vec<char>) -> (b: bool)
    ensures
        b == noise_lower(n@, m@, device_id@),
{
    if (contains_str(m, "amd") || contains_str(m, "advanced micro devices") || contains_str(
        m,
        "nvidia",
    )) && (contains_str(n, "high definition audio") || contains_str(n, "streaming audio")
        || contains_str(n, "hdmi audio")) {
        return true;
    }
    if noise_name(n) {
        return true;
    }
    if starts_with_chars(n, "microsoft ") {
        return true;
    }
    if starts_with_chars(device_id, "acpi\\") || starts_with_chars(device_id, "pci\\") {
        if !contains_str(device_id, "usb\\") && !contains_str(device_id, "usbvid") {
            return true;
        }
    }
    false
}

/// Whether a device is noise, given its name and its maker already lower-cased and
/// its lower-case device id: the rule of `is_noise` after the case mapping.
pub fn is_noise_lower(name: &str, manufacturer: &str, device_id: &str) -> (b: bool)
    ensures
        b == noise_lower(name@, manufacturer@, device_id@),
{
    noise_lower_chars(&to_chars(name), &to_chars(manufacturer), &to_chars(device_id))
}

/// Internal, virtual or generic devices, which are no peripherals: GPU audio
/// functions, hubs, composite and HID-compliant placeholders, Windows' own
/// endpoints, and devices on the internal buses.
pub fn is_noise(name: &str, manufacturer: &Option<String>, device_id: &str) -> (b: bool)
    ensures
        b == noise(name@, opt_view(*manufacturer), device_id@),
{
    let m = match manufacturer {
        Some(m) => Some(to_chars(m.as_str())),
        None => None,
    };
    noise_chars(&to_chars(name), &m, &to_chars(device_id))
}

fn kind_chars(name: &Vec<char>, class: &Vec<char>) -> (k: PeripheralKind)
    ensures
        k == kind_of(name@, class@),
{
    kind_lower_chars(&to_lowercase_chars(name), class)
}

fn kind_lower_chars(n: &Vec<char>, class: &Vec<char>) -> (k: PeripheralKind)
    ensures
        k == kind_of_lower(n@, class@),
{
    if eq_str(class, "media") || eq_str(class, "audioendpoint") || contains_str(n, "audio")
        || contains_str(n, "dac") || contains_str(n, "microphone") || contains_str(
        n,
        "headset",
    ) || contains_str(n, "headphone") || contains_str(n, "speaker") || contains_str(
        n,
        "sound",
    ) {
        PeripheralKind::Audio
    } else if eq_str(class, "keyboard") || contains_str(n, "keyboard") {
        PeripheralKind::Keyboard
    } else if eq_str(class, "mouse") || contains_str(n, "mouse") {
        PeripheralKind::Mouse
    } else {
        PeripheralKind::Other
    }
}

/// The kind of a peripheral by its (lower-case) device class and its name already
/// lower-cased: the rule of `classify_peripheral` after the case mapping.
pub fn classify_peripheral_lower(name: &str, pnp_class: &str) -> (k: PeripheralKind)
    ensures
        k == kind_of_lower(name@, pnp_class@),
{
    kind_lower_chars(&to_chars(name), &to_chars(pnp_class))
}

/// The kind of a peripheral, by its (lower-case) device class and its name.
pub fn classify_peripheral(name: &str, pnp_class: &str) -> (k: PeripheralKind)
    ensures
        k == kind_of(name@, pnp_class@),
{
    kind_chars(&to_chars(name), &to_chars(pnp_class))
}

fn strip_one_exec(n: &Vec<char>, suffix: &str) -> (r: Option<Vec<char>>)
    ensures
        r matches Some(v) ==> strip_one(n@, suffix@) == Some(v@),
        r is None ==> strip_one(n@, suffix@) is None,
{
    match strip_suffix_exec(n, suffix) {
        Some(b) => if b.len() > 0 {
            Some(b)
        } else {
            None
        },
        None => None,
    }
}

fn strip_audio_chars(n: &Vec<char>) -> (r: Vec<char>)
    ensures
        r@ == strip_audio(n@),
{
    if let Some(b) = strip_one_exec(n, " Hands-Free AG Audio") {
        b
    } else if let Some(b) = strip_one_exec(n, " Hands-Free") {
        b
    } else if let Some(b) = strip_one_exec(n, " Stereo Microphone") {
        b
    } else if let Some(b) = strip_one_exec(n, " Stereo") {
        b
    } else if let Some(b) = strip_one_exec(n, " Microphone") {
        b
    } else if let Some(b) = strip_one_exec(n, " Speakers") {
        b
    } else if let Some(b) = strip_one_exec(n, " Headphones") {
        b
    } else if let Some(b) = strip_one_exec(n, " Headset") {
        b
    } else if let Some(b) = strip_one_exec(n, " LE Audio") {
        b
    } else if let Some(b) = strip_one_exec(n, " Avrcp Transport") {
        b
    } else if let Some(b) = strip_one_exec(n, " Audio") {
        b
    } else {
        crate::text::slice_of(n, 0, n.len())
    }
}

/// A device name without the first profile suffix it ends with (" Hands-Free",
/// " Stereo", " Microphone", ...), as long as something is left of it.
pub fn strip_audio_suffix(name: &str) -> (r: String)
    ensures
        r@ == strip_audio(name@),
{
    from_chars(&strip_audio_chars(&to_chars(name)))
}

fn id_root_chars(id: &Vec<char>) -> (r: Vec<char>)
    ensures
        r@ == id_root(id@),
{
    let n = id.len();
    let mut j: usize = n;
    while j > 0 && id[j - 1] != '\\'
        invariant
            j <= n == id@.len(),
            last_index(id@, '\\', n as int) == last_index(id@, '\\', j as int),
        decreases j,
    {
        j = j - 1;
    }
    if j > 0 {
        crate::text::slice_of(id, 0, j - 1)
    } else {
        assert(last_index(id@, '\\', 0) == -1);
        crate::text::slice_of(id, 0, n)
    }
}

/// The peripheral that a device row describes, unless it is out of class, noise, or nameless.
pub fn device_from_record(r: &PnpRecord) -> (d: Option<PeripheralDevice>)
    ensures
        match d {
            Some(d) => device_of(r@) == Some(d@),
            None => device_of(r@) is None,
        },
{
    let raw = match &r.name {
        Some(n) => n,
        None => return None,
    };
    let name = trim_str(raw.as_str());
    let class_raw = match &r.pnp_class {
        Some(c) => to_chars(c.as_str()),
        None => Vec::new(),
    };
    let class = to_lowercase_chars(&class_raw);
    let manufacturer: Option<Vec<char>> = match &r.manufacturer {
        Some(m) => {
            let t = trim_str(m.as_str());
            if t.len() > 0 {
                Some(t)
            } else {
                None
            }
        },
        None => None,
    };
    let id_raw = match &r.device_id {
        Some(c) => to_chars(c.as_str()),
        None => Vec::new(),
    };
    let id = to_lowercase_chars(&id_raw);
    assert(class_raw@ =~= or_empty(r@.pnp_class));
    assert(id_raw@ =~= or_empty(r@.device_id));
    let relevant = eq_str(&class, "hidclass") || eq_str(&class, "media") || eq_str(
        &class,
        "keyboard",
    ) || eq_str(&class, "mouse");
    if !relevant {
        return None;
    }
    if noise_chars(&name, &manufacturer, &id) {
        return None;
    }
    let kind = kind_chars(&name, &class);
    let root = id_root_chars(&id);
    let m = match manufacturer {
        Some(m) => Some(from_chars(&m)),
        None => None,
    };
    Some(
        PeripheralDevice {
            name: from_chars(&name),
            manufacturer: m,
            kind,
            device_id_root: from_chars(&root),
        },
    )
}


pub open spec fn pviews(s: Seq<PeripheralDevice>) -> Seq<PeripheralDeviceView> {
    s.map_values(|p: PeripheralDevice| p@)
}

pub open spec fn record_views(s: Seq<PnpRecord>) -> Seq<PnpRecordView> {
    s.map_values(|r: PnpRecord| r@)
}

fn lex_lt_exec(a: &Vec<char>, b: &Vec<char>) -> (r: bool)
    ensures
        r == lex_lt(a@, b@),
{
    let mut i: usize = 0;
    assert(a@.subrange(0, a@.len() as int) =~= a@);
    assert(b@.subrange(0, b@.len() as int) =~= b@);
    loop
        invariant
            i <= a@.len(),
            i <= b@.len(),
            lex_lt(a@, b@) == lex_lt(
                a@.subrange(i as int, a@.len() as int),
                b@.subrange(i as int, b@.len() as int),
            ),
        decreases a@.len() - i,
    {
        let ghost sa = a@.subrange(i as int, a@.len() as int);
        let ghost sb = b@.subrange(i as int, b@.len() as int);
        if i == b.len() {
            return false;
        }
        if i == a.len() {
            return true;
        }
        assert(sa[0] == a@[i as int] && sb[0] == b@[i as int]);
        if a[i] < b[i] {
            return true;
        }
        if a[i] != b[i] {
            return false;
        }
        assert(sa.drop_first() =~= a@.subrange(i + 1, a@.len() as int));
        assert(sb.drop_first() =~= b@.subrange(i + 1, b@.len() as int));
        i = i + 1;
    }
}

fn rank_exec(k: PeripheralKind) -> (r: u8)
    ensures
        r as int == rank(k),
{
    match k {
        PeripheralKind::Audio => 0,
        PeripheralKind::Keyboard => 1,
        PeripheralKind::Mouse => 2,
        PeripheralKind::Other => 3,
    }
}

fn before_exec(x: &PeripheralDevice, y: &PeripheralDevice, by_kind: bool) -> (r: bool)
    ensures
        r == before(x@, y@, by_kind),
{
    if by_kind {
        rank_exec(x.kind) < rank_exec(y.kind)
    } else {
        let xr = to_chars(x.device_id_root.as_str());
        let yr = to_chars(y.device_id_root.as_str());
        if lex_lt_exec(&xr, &yr) {
            true
        } else if eq_chars(&xr, &yr) {
            lex_lt_exec(&to_chars(x.name.as_str()), &to_chars(y.name.as_str()))
        } else {
            false
        }
    }
}

fn insert_sorted_exec(t: &mut Vec<PeripheralDevice>, x: PeripheralDevice, by_kind: bool)
    ensures
        pviews(final(t)@) == insert_sorted(pviews(old(t)@), x@, by_kind),
{
    let ghost tv = pviews(t@);
    let n = t.len();
    let mut j: usize = n;
    while j > 0 && before_exec(&x, &t[j - 1], by_kind)
        invariant
            j <= n == t@.len(),
            tv == pviews(t@),
            ins_pos(tv, x@, n as int, by_kind) == ins_pos(tv, x@, j as int, by_kind),
        decreases j,
    {
        assert(tv[j - 1] == t@[j - 1]@);
        j = j - 1;
    }
    proof {
        if j > 0 {
            assert(tv[j - 1] == t@[j - 1]@);
        }
    }
    let ghost xv = x@;
    t.insert(j, x);
    assert(pviews(t@) =~= tv.insert(j as int, xv));
}

/// Sorts the peripherals stably: by kind when `by_kind`, else by device id root and name.
fn stable_sort_exec(v: Vec<PeripheralDevice>, by_kind: bool) -> (r: Vec<PeripheralDevice>)
    ensures
        pviews(r@) == stable_sort(pviews(v@), by_kind),
{
    let ghost sv = pviews(v@);
    let mut src = v;
    let mut out: Vec<PeripheralDevice> = Vec::new();
    let ghost mut k: int = 0;
    assert(pviews(src@) =~= sv.skip(0));
    assert(sv.take(0) =~= Seq::<PeripheralDeviceView>::empty());
    assert(pviews(out@) =~= Seq::<PeripheralDeviceView>::empty());
    while src.len() > 0
        invariant
            0 <= k <= sv.len(),
            src@.len() == sv.len() - k,
            pviews(src@) == sv.skip(k),
            pviews(out@) == stable_sort(sv.take(k), by_kind),
        decreases src@.len(),
    {
        let ghost before_src = src@;
        let x = src.remove(0);
        assert(x@ == pviews(before_src)[0]);
        assert(sv.skip(k)[0] == sv[k]);
        assert(sv.take(k + 1).drop_last() =~= sv.take(k));
        assert(sv.take(k + 1).last() == sv[k]);
        insert_sorted_exec(&mut out, x, by_kind);
        assert forall|i: int| 0 <= i < src@.len() implies #[trigger] pviews(src@)[i] == sv.skip(
            k + 1,
        )[i] by {
            assert(src@[i] == before_src[i + 1]);
            assert(pviews(before_src)[i + 1] == sv.skip(k)[i + 1]);
        }
        assert(pviews(src@) =~= sv.skip(k + 1));
        proof {
            k = k + 1;
        }
    }
    assert(sv.take(k) =~= sv);
    out
}

fn same_device_exec(a: &PeripheralDevice, b: &PeripheralDevice) -> (r: bool)
    ensures
        r == same_device(a@, b@),
{
    let ar = to_chars(a.device_id_root.as_str());
    let br = to_chars(b.device_id_root.as_str());
    if eq_chars(&ar, &br) && ar.len() > 0 {
        return true;
    }
    let an = strip_audio_chars(&to_chars(a.name.as_str()));
    let bn = strip_audio_chars(&to_chars(b.name.as_str()));
    eq_chars(&an, &bn)
}

/// Drops each peripheral that is the same device as the last one kept.
fn dedup_exec(v: Vec<PeripheralDevice>) -> (r: Vec<PeripheralDevice>)
    ensures
        pviews(r@) == dedup(pviews(v@)),
{
    let ghost sv = pviews(v@);
    let mut src = v;
    let mut out: Vec<PeripheralDevice> = Vec::new();
    let ghost mut k: int = 0;
    assert(pviews(src@) =~= sv.skip(0));
    assert(sv.take(0) =~= Seq::<PeripheralDeviceView>::empty());
    assert(pviews(out@) =~= Seq::<PeripheralDeviceView>::empty());
    while src.len() > 0
        invariant
            0 <= k <= sv.len(),
            src@.len() == sv.len() - k,
            pviews(src@) == sv.skip(k),
            pviews(out@) == dedup(sv.take(k)),
        decreases src@.len(),
    {
        let ghost before_src = src@;
        let ghost before_out = out@;
        let x = src.remove(0);
        assert(x@ == pviews(before_src)[0]);
        assert(sv.skip(k)[0] == sv[k]);
        assert(sv.take(k + 1).drop_last() =~= sv.take(k));
        assert(sv.take(k + 1).last() == sv[k]);
        let n = out.len();
        if n > 0 && same_device_exec(&x, &out[n - 1]) {
            assert(pviews(before_out).last() == out@[n - 1]@);
        } else {
            proof {
                if n > 0 {
                    assert(pviews(before_out).last() == out@[n - 1]@);
                }
            }
            let ghost xv = x@;
            out.push(x);
            assert(pviews(out@) =~= pviews(before_out).push(xv));
        }
        assert forall|i: int| 0 <= i < src@.len() implies #[trigger] pviews(src@)[i] == sv.skip(
            k + 1,
        )[i] by {
            assert(src@[i] == before_src[i + 1]);
            assert(pviews(before_src)[i + 1] == sv.skip(k)[i + 1]);
        }
        assert(pviews(src@) =~= sv.skip(k + 1));
        proof {
            k = k + 1;
        }
    }
    assert(sv.take(k) =~= sv);
    out
}

/// The peripherals of the Windows device list: the rows of a peripheral class that
/// are no noise, each physical device once (repeated registrations, such as the
/// stereo and hands-free profiles of one headset, share a device id root or a name
/// once profile suffixes are stripped), audio devices first, then keyboards, mice
/// and the rest.
pub fn peripherals_from_records(records: &Vec<PnpRecord>) -> (r: Vec<PeripheralDevice>)
    ensures
        pviews(r@) == peripherals_of(record_views(records@)),
{
    let ghost rv = record_views(records@);
    let mut found: Vec<PeripheralDevice> = Vec::new();
    let mut k: usize = 0;
    assert(rv.take(0) =~= Seq::<PnpRecordView>::empty());
    assert(pviews(found@) =~= Seq::<PeripheralDeviceView>::empty());
    while k < records.len()
        invariant
            k <= records@.len(),
            rv == record_views(records@),
            pviews(found@) == devices_of(rv.take(k as int)),
        decreases records@.len() - k,
    {
        assert(rv.take(k + 1).drop_last() =~= rv.take(k as int));
        assert(rv.take(k + 1).last() == records@[k as int]@);
        let ghost before = found@;
        match device_from_record(&records[k]) {
            Some(d) => {
                let ghost dv = d@;
                found.push(d);
                assert(pviews(found@) =~= pviews(before) + seq![dv]);
            },
            None => {
                assert(pviews(found@) =~= pviews(before) + seq![]);
            },
        }
        k = k + 1;
    }
    assert(rv.take(records@.len() as int) =~= rv);
    let sorted = stable_sort_exec(found, false);
    let unique = dedup_exec(sorted);
    stable_sort_exec(unique, true)
}


proof fn lemma_ins_pos(t: Seq<PeripheralDeviceView>, x: PeripheralDeviceView, j: int, by_kind: bool)
    requires
        0 <= j <= t.len(),
    ensures
        0 <= ins_pos(t, x, j, by_kind) <= j,
        forall|i: int| ins_pos(t, x, j, by_kind) <= i < j ==> before(x, #[trigger] t[i], by_kind),
        ins_pos(t, x, j, by_kind) > 0 ==> !before(x, t[ins_pos(t, x, j, by_kind) - 1], by_kind),
    decreases j,
{
    if j > 0 && before(x, t[j - 1], by_kind) {
        lemma_ins_pos(t, x, j - 1, by_kind);
    }
}

/// The kinds of the peripherals never go down along the sequence.
pub open spec fn kinds_in_order(s: Seq<PeripheralDeviceView>) -> bool {
    forall|i: int, j: int| 0 <= i < j < s.len() ==> rank(#[trigger] s[i].kind) <= rank(
        #[trigger] s[j].kind,
    )
}

proof fn lemma_insert_keeps_kind_order(t: Seq<PeripheralDeviceView>, x: PeripheralDeviceView)
    requires
        kinds_in_order(t),
    ensures
        kinds_in_order(insert_sorted(t, x, true)),
{
    let p = ins_pos(t, x, t.len() as int, true);
    lemma_ins_pos(t, x, t.len() as int, true);
    let r = insert_sorted(t, x, true);
    assert forall|i: int, j: int| 0 <= i < j < r.len() implies rank(#[trigger] r[i].kind) <= rank(
        #[trigger] r[j].kind,
    ) by {
        if j < p {
            assert(r[i] == t[i] && r[j] == t[j]);
        } else if j == p {
            assert(r[j] == x);
            assert(r[i] == t[i]);
            assert(rank(t[i].kind) <= rank(t[p - 1].kind));
        } else if i < p {
            assert(r[i] == t[i] && r[j] == t[j - 1]);
        } else if i == p {
            assert(r[i] == x && r[j] == t[j - 1]);
            assert(before(x, t[j - 1], true));
        } else {
            assert(r[i] == t[i - 1] && r[j] == t[j - 1]);
        }
    }
}

proof fn lemma_sort_kind_order(s: Seq<PeripheralDeviceView>)
    ensures
        kinds_in_order(stable_sort(s, true)),
    decreases s.len(),
{
    if s.len() > 0 {
        lemma_sort_kind_order(s.drop_last());
        lemma_insert_keeps_kind_order(stable_sort(s.drop_last(), true), s.last());
    }
}

proof fn lemma_sort_members(s: Seq<PeripheralDeviceView>, by_kind: bool)
    ensures
        stable_sort(s, by_kind).len() == s.len(),
        forall|y: PeripheralDeviceView| #[trigger] stable_sort(s, by_kind).contains(y) <==> s.contains(y),
    decreases s.len(),
{
    if s.len() > 0 {
        lemma_sort_members(s.drop_last(), by_kind);
        let t = stable_sort(s.drop_last(), by_kind);
        let p = ins_pos(t, s.last(), t.len() as int, by_kind);
        lemma_ins_pos(t, s.last(), t.len() as int, by_kind);
        let r = t.insert(p, s.last());
        assert forall|y: PeripheralDeviceView| #[trigger] r.contains(y) <==> s.contains(y) by {
            if r.contains(y) {
                let i = choose|i: int| 0 <= i < r.len() && r[i] == y;
                if i < p {
                    assert(t[i] == y);
                    assert(t.contains(y));
                    assert(s.drop_last().contains(y));
                    let m = choose|m: int| 0 <= m < s.drop_last().len() && s.drop_last()[m] == y;
                    assert(s[m] == y);
                } else if i == p {
                    assert(s[s.len() - 1] == y);
                } else {
                    assert(t[i - 1] == y);
                    assert(t.contains(y));
                    assert(s.drop_last().contains(y));
                    let m = choose|m: int| 0 <= m < s.drop_last().len() && s.drop_last()[m] == y;
                    assert(s[m] == y);
                }
            }
            if s.contains(y) {
                let m = choose|m: int| 0 <= m < s.len() && s[m] == y;
                if m == s.len() - 1 {
                    assert(r[p] == y);
                } else {
                    assert(s.drop_last()[m] == y);
                    assert(s.drop_last().contains(y));
                    assert(t.contains(y));
                    let i = choose|i: int| 0 <= i < t.len() && t[i] == y;
                    if i < p {
                        assert(r[i] == y);
                    } else {
                        assert(r[i + 1] == y);
                    }
                }
            }
        }
    }
}

proof fn lemma_dedup_members(s: Seq<PeripheralDeviceView>)
    ensures
        forall|y: PeripheralDeviceView| #[trigger] dedup(s).contains(y) ==> s.contains(y),
    decreases s.len(),
{
    if s.len() > 0 {
        lemma_dedup_members(s.drop_last());
        let r = dedup(s.drop_last());
        assert forall|y: PeripheralDeviceView| #[trigger] dedup(s).contains(y) implies s.contains(
            y,
        ) by {
            if r.contains(y) {
                assert(s.drop_last().contains(y));
                let m = choose|m: int| 0 <= m < s.drop_last().len() && s.drop_last()[m] == y;
                assert(s[m] == y);
            } else {
                let d = dedup(s);
                let i = choose|i: int| 0 <= i < d.len() && d[i] == y;
                if !(r.len() > 0 && same_device(s.last(), r.last())) {
                    if i < r.len() {
                        assert(d[i] == r[i]);
                    } else {
                        assert(s[s.len() - 1] == y);
                    }
                }
            }
        }
    }
}

proof fn lemma_devices_from_rows(rs: Seq<PnpRecordView>)
    ensures
        forall|y: PeripheralDeviceView| #[trigger] devices_of(rs).contains(y) ==> exists|i: int|
            0 <= i < rs.len() && device_of(rs[i]) == Some(y),
    decreases rs.len(),
{
    if rs.len() > 0 {
        lemma_devices_from_rows(rs.drop_last());
        let prev = devices_of(rs.drop_last());
        assert forall|y: PeripheralDeviceView| #[trigger] devices_of(rs).contains(y) implies exists|
            i: int,
        | 0 <= i < rs.len() && device_of(rs[i]) == Some(y) by {
            let d = devices_of(rs);
            let k = choose|k: int| 0 <= k < d.len() && d[k] == y;
            if k < prev.len() {
                assert(d[k] == prev[k]);
                assert(prev.contains(y));
                let i = choose|i: int| 0 <= i < rs.drop_last().len() && device_of(rs.drop_last()[i]) == Some(y);
                assert(rs[i] == rs.drop_last()[i]);
            } else {
                assert(device_of(rs[rs.len() - 1]) == Some(y));
            }
        }
    }
}

/// The peripherals come grouped by kind: audio devices first, then keyboards,
/// then mice, then the rest; and each of them is the peripheral that one of the
/// device rows describes.
pub proof fn lemma_peripherals_grouped_and_listed(rs: Seq<PnpRecordView>)
    ensures
        kinds_in_order(peripherals_of(rs)),
        forall|y: PeripheralDeviceView| #[trigger] peripherals_of(rs).contains(y) ==> exists|i: int|
            0 <= i < rs.len() && device_of(rs[i]) == Some(y),
{
    let a = devices_of(rs);
    let b = stable_sort(a, false);
    let c = dedup(b);
    lemma_sort_kind_order(c);
    lemma_sort_members(c, true);
    lemma_dedup_members(b);
    lemma_sort_members(a, false);
    lemma_devices_from_rows(rs);
    assert forall|y: PeripheralDeviceView| #[trigger] peripherals_of(rs).contains(y) implies exists|
        i: int,
    | 0 <= i < rs.len() && device_of(rs[i]) == Some(y) by {
        assert(c.contains(y));
        assert(b.contains(y));
        assert(a.contains(y));
    }
}


/// The description in a line of `lsusb` ("Bus 001 Device 002: ID 046d:c52b Logitech,
/// Inc. Unifying Receiver"): the text between its second and third ':', trimmed.
pub open spec fn lsusb_description(line: Seq<char>) -> Seq<char> {
    let parts = splitn(line, 4, ':');
    trim(
        if parts.len() > 2 {
            parts[2]
        } else {
            seq![]
        },
    )
}

/// The USB devices of an `lsusb` listing, without hubs and lines of no description.
pub open spec fn lsusb_devices(ls: Seq<Seq<char>>) -> Seq<PeripheralDeviceView>
    decreases ls.len(),
{
    if ls.len() == 0 {
        seq![]
    } else {
        let d = lsusb_description(ls.last());
        lsusb_devices(ls.drop_last()) + if d.len() == 0 || contains(lowercase(d), "hub"@) {
            seq![]
        } else {
            seq![
                PeripheralDeviceView {
                    name: d,
                    manufacturer: None,
                    kind: PeripheralKind::Other,
                    device_id_root: seq![],
                },
            ]
        }
    }
}

/// The USB devices of an `lsusb` listing, hubs left out.
pub fn parse_lsusb(text: &str) -> (r: Vec<PeripheralDevice>)
    ensures
        pviews(r@) == lsusb_devices(lines(text@)),
{
    let chars = to_chars(text);
    let ls = lines_exec(&chars);
    let ghost lv = views(ls@);
    let mut out: Vec<PeripheralDevice> = Vec::new();
    let mut k: usize = 0;
    assert(lv.take(0) =~= Seq::<Seq<char>>::empty());
    assert(pviews(out@) =~= Seq::<PeripheralDeviceView>::empty());
    while k < ls.len()
        invariant
            k <= ls@.len(),
            lv == views(ls@),
            pviews(out@) == lsusb_devices(lv.take(k as int)),
        decreases ls@.len() - k,
    {
        assert(lv.take(k + 1).drop_last() =~= lv.take(k as int));
        assert(lv.take(k + 1).last() == ls@[k as int]@);
        let parts = splitn_exec(&ls[k], 4, ':');
        let raw = if parts.len() > 2 {
            assert(parts[2]@ == splitn(ls@[k as int]@, 4, ':')[2]);
            crate::text::slice_of(&parts[2], 0, parts[2].len())
        } else {
            Vec::new()
        };
        proof {
            let e: Seq<char> = seq![];
            let sp = splitn(ls@[k as int]@, 4, ':');
            assert(views(parts@) == sp);
            assert(sp.len() == parts@.len());
            if parts.len() <= 2 {
                assert(raw@ =~= e);
            } else {
                assert(raw@ == sp[2]);
            }
        }
        let d = trim_chars(&raw);
        assert(d@ == lsusb_description(ls@[k as int]@));
        let ghost before = out@;
        if d.len() == 0 || contains_str(&to_lowercase_chars(&d), "hub") {
            assert(pviews(out@) =~= pviews(before) + seq![]);
        } else {
            let p = PeripheralDevice {
                name: from_chars(&d),
                manufacturer: None,
                kind: PeripheralKind::Other,
                device_id_root: from_chars(&Vec::new()),
            };
            let ghost pv = p@;
            out.push(p);
            assert(pviews(out@) =~= pviews(before) + seq![pv]);
        }
        k = k + 1;
    }
    assert(lv.take(ls@.len() as int) =~= lv);
    out
}

/// Where the peripheral list comes from on each platform.
pub enum PeripheralSource {
    /// The Windows device rows (none where the query failed).
    Windows(Vec<PnpRecord>),
    /// The output of `lsusb`, where it ran.
    Lsusb(Option<String>),
    /// macOS, where peripherals are not read yet.
    MacOs,
}

pub open spec fn peripherals_of_source(source: PeripheralSource) -> Seq<PeripheralDeviceView> {
    match source {
        PeripheralSource::Windows(rs) => peripherals_of(record_views(rs@)),
        PeripheralSource::Lsusb(Some(t)) => lsusb_devices(lines(t@)),
        _ => seq![],
    }
}

/// The peripherals of the machine, from the platform's device list.
pub fn collect(source: &PeripheralSource) -> (r: Vec<PeripheralDevice>)
    ensures
        pviews(r@) == peripherals_of_source(*source),
{
    match source {
        PeripheralSource::Windows(rs) => peripherals_from_records(rs),
        PeripheralSource::Lsusb(Some(t)) => parse_lsusb(t.as_str()),
        _ => {
            let r: Vec<PeripheralDevice> = Vec::new();
            assert(pviews(r@) =~= seq![]);
            r
        },
    }
}


proof fn lemma_lex_irreflexive(a: Seq<char>)
    ensures
        !lex_lt(a, a),
    decreases a.len(),
{
    if a.len() > 0 {
        lemma_lex_irreflexive(a.drop_first());
    }
}

proof fn lemma_lex_asymmetric(a: Seq<char>, b: Seq<char>)
    requires
        lex_lt(a, b),
    ensures
        !lex_lt(b, a),
    decreases a.len(),
{
    if a.len() > 0 && b.len() > 0 && a[0] == b[0] {
        lemma_lex_asymmetric(a.drop_first(), b.drop_first());
    }
}

proof fn lemma_lex_transitive(a: Seq<char>, b: Seq<char>, c: Seq<char>)
    requires
        lex_lt(a, b),
        lex_lt(b, c),
    ensures
        lex_lt(a, c),
    decreases a.len(),
{
    if a.len() > 0 && b.len() > 0 && c.len() > 0 && a[0] == b[0] && b[0] == c[0] {
        lemma_lex_transitive(a.drop_first(), b.drop_first(), c.drop_first());
    }
}

proof fn lemma_lex_total(a: Seq<char>, b: Seq<char>)
    ensures
        a == b || lex_lt(a, b) || lex_lt(b, a),
    decreases a.len(),
{
    if a.len() == 0 && b.len() == 0 {
        assert(a =~= b);
    } else if a.len() > 0 && b.len() > 0 && a[0] == b[0] {
        lemma_lex_total(a.drop_first(), b.drop_first());
        if a.drop_first() == b.drop_first() {
            assert(a =~= seq![a[0]] + a.drop_first());
            assert(b =~= seq![b[0]] + b.drop_first());
        }
    } else if a.len() > 0 && b.len() > 0 {
        assert((a[0] as int) != (b[0] as int));
    }
}

/// `a`'s root does not come after `b`'s.
pub open spec fn root_le(a: PeripheralDeviceView, b: PeripheralDeviceView) -> bool {
    !lex_lt(b.device_id_root, a.device_id_root)
}

proof fn lemma_root_le_transitive(a: PeripheralDeviceView, b: PeripheralDeviceView, c: PeripheralDeviceView)
    requires
        root_le(a, b),
        root_le(b, c),
    ensures
        root_le(a, c),
{
    if lex_lt(c.device_id_root, a.device_id_root) {
        lemma_lex_total(b.device_id_root, c.device_id_root);
        if lex_lt(b.device_id_root, c.device_id_root) {
            lemma_lex_transitive(b.device_id_root, c.device_id_root, a.device_id_root);
        }
    }
}

pub open spec fn roots_in_order(s: Seq<PeripheralDeviceView>) -> bool {
    forall|i: int, j: int| 0 <= i < j < s.len() ==> root_le(#[trigger] s[i], #[trigger] s[j])
}

proof fn lemma_insert_keeps_root_order(t: Seq<PeripheralDeviceView>, x: PeripheralDeviceView)
    requires
        roots_in_order(t),
    ensures
        roots_in_order(insert_sorted(t, x, false)),
{
    let p = ins_pos(t, x, t.len() as int, false);
    lemma_ins_pos(t, x, t.len() as int, false);
    let r = insert_sorted(t, x, false);
    if p > 0 {
        // x does not come before t[p - 1]
        if lex_lt(x.device_id_root, t[p - 1].device_id_root) {
            assert(before(x, t[p - 1], false));
        }
    }
    assert forall|i: int| p < i < r.len() implies root_le(x, #[trigger] r[i]) by {
        assert(r[i] == t[i - 1]);
        assert(before(x, t[i - 1], false));
        if lex_lt(x.device_id_root, t[i - 1].device_id_root) {
            lemma_lex_asymmetric(x.device_id_root, t[i - 1].device_id_root);
        } else {
            lemma_lex_irreflexive(x.device_id_root);
        }
    }
    assert forall|i: int, j: int| 0 <= i < j < r.len() implies root_le(#[trigger] r[i], #[trigger] r[j]) by {
        if j < p {
            assert(r[i] == t[i] && r[j] == t[j]);
        } else if j == p {
            assert(r[i] == t[i]);
            if i < p - 1 {
                assert(root_le(t[i], t[p - 1]));
                lemma_root_le_transitive(t[i], t[p - 1], x);
            }
        } else if i < p {
            assert(r[i] == t[i] && r[j] == t[j - 1]);
        } else if i == p {
            assert(r[i] == x);
        } else {
            assert(r[i] == t[i - 1] && r[j] == t[j - 1]);
        }
    }
}

proof fn lemma_sort_root_order(s: Seq<PeripheralDeviceView>)
    ensures
        roots_in_order(stable_sort(s, false)),
    decreases s.len(),
{
    if s.len() > 0 {
        lemma_sort_root_order(s.drop_last());
        lemma_insert_keeps_root_order(stable_sort(s.drop_last(), false), s.last());
    }
}

/// No two neighbours are the same device by their root.
pub open spec fn neighbours_differ(s: Seq<PeripheralDeviceView>) -> bool {
    forall|i: int| 0 < i < s.len() ==> !(#[trigger] s[i].device_id_root == s[i - 1].device_id_root
        && s[i].device_id_root.len() > 0)
}

proof fn lemma_dedup_order(s: Seq<PeripheralDeviceView>)
    requires
        roots_in_order(s),
    ensures
        roots_in_order(dedup(s)),
        neighbours_differ(dedup(s)),
    decreases s.len(),
{
    if s.len() > 0 {
        let t = s.drop_last();
        assert(roots_in_order(t));
        lemma_dedup_order(t);
        lemma_dedup_members(t);
        let r = dedup(t);
        let x = s.last();
        if !(r.len() > 0 && same_device(x, r.last())) {
            let d = r.push(x);
            assert forall|i: int| 0 <= i < r.len() implies root_le(#[trigger] r[i], x) by {
                assert(r.contains(r[i]));
                let m = choose|m: int| 0 <= m < t.len() && t[m] == r[i];
                assert(s[m] == t[m]);
            }
            assert forall|i: int, j: int| 0 <= i < j < d.len() implies root_le(#[trigger] d[i], #[trigger] d[j]) by {
                if j < r.len() {
                    assert(d[i] == r[i] && d[j] == r[j]);
                } else {
                    assert(d[i] == r[i] && d[j] == x);
                }
            }
            assert forall|i: int| 0 < i < d.len() implies !(#[trigger] d[i].device_id_root == d[i
                - 1].device_id_root && d[i].device_id_root.len() > 0) by {
                if i < r.len() {
                    assert(d[i] == r[i] && d[i - 1] == r[i - 1]);
                } else {
                    assert(d[i] == x && d[i - 1] == r.last());
                }
            }
        }
    }
}

/// No two devices share a non-empty root.
pub open spec fn roots_distinct(s: Seq<PeripheralDeviceView>) -> bool {
    forall|i: int, j: int|
        0 <= i < s.len() && 0 <= j < s.len() && i != j && (#[trigger] s[i]).device_id_root.len() > 0
            ==> s[i].device_id_root != (#[trigger] s[j]).device_id_root
}

proof fn lemma_ordered_neighbours_distinct(s: Seq<PeripheralDeviceView>)
    requires
        roots_in_order(s),
        neighbours_differ(s),
    ensures
        roots_distinct(s),
{
    assert forall|i: int, j: int|
        0 <= i < s.len() && 0 <= j < s.len() && i != j && (#[trigger] s[i]).device_id_root.len()
            > 0 implies s[i].device_id_root != (#[trigger] s[j]).device_id_root by {
        if s[i].device_id_root == s[j].device_id_root {
            let lo = if i < j { i } else { j };
            let hi = if i < j { j } else { i };
            // s[lo] <= s[hi - 1] <= s[hi] and s[lo] == s[hi] by root: all three share it
            if lo < hi - 1 {
                assert(root_le(s[lo], s[hi - 1]));
            }
            assert(root_le(s[hi - 1], s[hi]));
            lemma_lex_total(s[hi - 1].device_id_root, s[hi].device_id_root);
            assert(s[hi].device_id_root == s[hi - 1].device_id_root);
            assert(!(s[hi].device_id_root == s[hi - 1].device_id_root && s[hi].device_id_root.len() > 0));
        }
    }
}

proof fn lemma_sort_keeps_distinct(s: Seq<PeripheralDeviceView>, by_kind: bool)
    requires
        roots_distinct(s),
    ensures
        roots_distinct(stable_sort(s, by_kind)),
    decreases s.len(),
{
    if s.len() > 0 {
        let t = s.drop_last();
        assert(roots_distinct(t)) by {
            assert forall|i: int, j: int|
                0 <= i < t.len() && 0 <= j < t.len() && i != j && (#[trigger] t[i]).device_id_root.len()
                    > 0 implies t[i].device_id_root != (#[trigger] t[j]).device_id_root by {
                assert(t[i] == s[i] && t[j] == s[j]);
            }
        }
        lemma_sort_keeps_distinct(t, by_kind);
        lemma_sort_members(t, by_kind);
        let u = stable_sort(t, by_kind);
        let x = s.last();
        let p = ins_pos(u, x, u.len() as int, by_kind);
        lemma_ins_pos(u, x, u.len() as int, by_kind);
        let r = u.insert(p, x);
        assert forall|i: int| 0 <= i < u.len() && x.device_id_root.len() > 0 implies (#[trigger] u[i]).device_id_root != x.device_id_root by {
            assert(u.contains(u[i]));
            assert(t.contains(u[i]));
            let m = choose|m: int| 0 <= m < t.len() && t[m] == u[i];
            assert(s[m] == u[i]);
            assert(s[s.len() - 1] == x);
        }
        assert forall|i: int, j: int|
            0 <= i < r.len() && 0 <= j < r.len() && i != j && (#[trigger] r[i]).device_id_root.len()
                > 0 implies r[i].device_id_root != (#[trigger] r[j]).device_id_root by {
            let ii = if i < p { i } else { i - 1 };
            let jj = if j < p { j } else { j - 1 };
            if i == p {
                assert(r[i] == x && r[j] == u[jj]);
            } else if j == p {
                assert(r[j] == x && r[i] == u[ii]);
            } else {
                assert(r[i] == u[ii] && r[j] == u[jj]);
            }
        }
    }
}

/// Each physical device is listed once: no two of the peripherals share a non-empty
/// device id root, however many registrations the device has.
pub proof fn lemma_peripheral_roots_distinct(rs: Seq<PnpRecordView>)
    ensures
        roots_distinct(peripherals_of(rs)),
{
    let b = stable_sort(devices_of(rs), false);
    lemma_sort_root_order(devices_of(rs));
    lemma_dedup_order(b);
    lemma_ordered_neighbours_distinct(dedup(b));
    lemma_sort_keeps_distinct(dedup(b), true);
}

/// No listed peripheral is one that the filter calls noise: each comes from a row of
/// an audio, HID, keyboard or mouse class, and no name of a generic hub, composite
/// or virtual device, nor one of Windows' own "Microsoft ..." endpoints, is listed.
pub proof fn lemma_listed_peripherals_not_noise(rs: Seq<PnpRecordView>)
    ensures
        forall|y: PeripheralDeviceView| #[trigger] peripherals_of(rs).contains(y) ==> {
            &&& !has_noise_name(lowercase(y.name))
            &&& !starts_with(lowercase(y.name), "microsoft "@)
            &&& exists|i: int|
                0 <= i < rs.len() && is_relevant_class(lowercase(or_empty(rs[i].pnp_class)))
                    && device_of(rs[i]) == Some(y)
        },
{
    lemma_peripherals_grouped_and_listed(rs);
    assert forall|y: PeripheralDeviceView| #[trigger] peripherals_of(rs).contains(y) implies {
        &&& !has_noise_name(lowercase(y.name))
        &&& !starts_with(lowercase(y.name), "microsoft "@)
        &&& exists|i: int|
            0 <= i < rs.len() && is_relevant_class(lowercase(or_empty(rs[i].pnp_class)))
                && device_of(rs[i]) == Some(y)
    } by {
        let i = choose|i: int| 0 <= i < rs.len() && device_of(rs[i]) == Some(y);
        assert(is_relevant_class(lowercase(or_empty(rs[i].pnp_class))));
    }
}

/// The name (lower-cased) says nothing of audio: none of the words that make a
/// device an audio one.
pub open spec fn no_audio_word(n: Seq<char>) -> bool {
    !contains(n, "audio"@) && !contains(n, "dac"@) && !contains(n, "microphone"@) && !contains(
        n,
        "headset"@,
    ) && !contains(n, "headphone"@) && !contains(n, "speaker"@) && !contains(n, "sound"@)
}

/// How a peripheral is classified: an audio device class or an audio word makes it
/// Audio; otherwise the keyboard class or the word "keyboard" in its (lower-cased)
/// name makes it a Keyboard, whatever its class; otherwise the mouse class or the word
/// "mouse" a Mouse; anything else is Other.
pub proof fn lemma_peripheral_classes(n: Seq<char>, class: Seq<char>)
    ensures
        class == "media"@ || class == "audioendpoint"@ || !no_audio_word(n) ==> kind_of_lower(
            n,
            class,
        ) == PeripheralKind::Audio,
        class != "media"@ && class != "audioendpoint"@ && no_audio_word(n) && (contains(
            n,
            "keyboard"@,
        ) || class == "keyboard"@) ==> kind_of_lower(n, class) == PeripheralKind::Keyboard,
        class != "media"@ && class != "audioendpoint"@ && no_audio_word(n) && !contains(
            n,
            "keyboard"@,
        ) && class != "keyboard"@ && (contains(n, "mouse"@) || class == "mouse"@) ==> kind_of_lower(
            n,
            class,
        ) == PeripheralKind::Mouse,
        class != "media"@ && class != "audioendpoint"@ && no_audio_word(n) && !contains(
            n,
            "keyboard"@,
        ) && class != "keyboard"@ && !contains(n, "mouse"@) && class != "mouse"@ ==> kind_of_lower(
            n,
            class,
        ) == PeripheralKind::Other,
{
}

/// A device whose lower-cased name holds "keyboard" and no audio word is classified a
/// Keyboard, whatever its device class other than an audio one.
pub proof fn lemma_keyboard_by_name(name: Seq<char>, class: Seq<char>)
    requires
        contains(lowercase(name), "keyboard"@),
        no_audio_word(lowercase(name)),
        class != "media"@,
        class != "audioendpoint"@,
    ensures
        kind_of(name, class) == PeripheralKind::Keyboard,
{
    lemma_peripheral_classes(lowercase(name), class);
}

} // verus!