//! The device/number table (`device_phones.json`): each device and the SIM
//! cards it can switch between. Fields that the file holds as arbitrary JSON
//! values are kept as their JSON text.
use vstd::prelude::*;
use crate::json::{
    json_i64, json_i64_text, json_items, json_items_text, json_member, json_member_text, json_str,
    json_str_text, json_u64, json_u64_text, member_str_or_empty, member_str_or_empty_of,
};
use crate::text::{
    decimal_signed, first_index, lemma_first_index, lemma_first_index_is, push_decimal_signed,
    string_from_chars,
};

verus! {

/// One SIM card of a device, as the table lists it.
pub struct SimCard {
    /// JSON text of the card's `no` value.
    pub no: String,
    /// JSON text of the card's `sim_no` value.
    pub sim_no: String,
    pub phone_number: String,
    pub app_lable: String,
    /// JSON text of the card's `sim_number` value.
    pub sim_number: String,
    /// JSON text of the card's `app_order` value: its position in the switcher app.
    pub app_order: String,
}

/// A device and its SIM cards.
pub struct SimDevice {
    pub device_id: String,
    pub card: Vec<SimCard>,
}

/// Where the switch scripts and the table live.
pub struct SimManager {
    pub python_path: String,
    pub scripts_dir: String,
    pub device_phones_path: String,
}

impl SimManager {
    pub fn new(python_path: String, scripts_dir: String, device_phones_path: String) -> (res: Self)
        ensures
            res.python_path@ == python_path@,
            res.scripts_dir@ == scripts_dir@,
            res.device_phones_path@ == device_phones_path@,
    {
        SimManager { python_path, scripts_dir, device_phones_path }
    }
}

/// Why no switch target was found for a number.
pub enum LocateError {
    /// No card of any device has the number.
    NotFound,
    /// The card has the number but its `app_order` is not a non-negative integer.
    InvalidAppOrder,
}

/// The device and the switcher position to switch to for a number.
pub struct PhoneTarget {
    pub device_id: String,
    pub app_order: u32,
}

pub open spec fn card_has_phone(phone: Seq<char>) -> spec_fn(SimCard) -> bool {
    |c: SimCard| c.phone_number@ == phone
}

pub open spec fn device_has_phone(phone: Seq<char>) -> spec_fn(SimDevice) -> bool {
    |d: SimDevice| first_index(d.card@, card_has_phone(phone)) < d.card@.len()
}

/// The first device (in table order) with a card of this number, and that card.
pub open spec fn phone_position(devs: Seq<SimDevice>, phone: Seq<char>) -> Option<(int, int)> {
    let i = first_index(devs, device_has_phone(phone));
    if i < devs.len() {
        Some((i, first_index(devs[i].card@, card_has_phone(phone))))
    } else {
        None
    }
}

/// The first card with the number, in table order, determines the target;
/// its `app_order` is read as a `u64` and cut to 32 bits.
pub open spec fn located(devs: Seq<SimDevice>, phone: Seq<char>) -> Result<(Seq<char>, u32), LocateError> {
    match phone_position(devs, phone) {
        None => Err(LocateError::NotFound),
        Some((i, j)) => match json_u64_text(devs[i].card@[j].app_order@) {
            Some(n) => Ok((devs[i].device_id@, n as u32)),
            None => Err(LocateError::InvalidAppOrder),
        },
    }
}

/// Which card a number leads to. The number is not found exactly when no
/// card of any device has it. When it is found, the target is a device that
/// has a card with the number, no device listed before it has one, and the
/// switcher position is that card's `app_order`.
pub proof fn lemma_located_card_has_the_number(devs: Seq<SimDevice>, phone: Seq<char>)
    ensures
        (located(devs, phone) matches Err(LocateError::NotFound)) <==> (forall|i: int, j: int|
            0 <= i < devs.len() && 0 <= j < devs[i].card@.len() ==> #[trigger] devs[i].card@[j].phone_number@
                != phone),
        located(devs, phone) matches Ok((d, n)) ==> exists|i: int, j: int|
            0 <= i < devs.len() && 0 <= j < devs[i].card@.len() && devs[i].device_id@ == d
                && #[trigger] devs[i].card@[j].phone_number@ == phone && (json_u64_text(
                devs[i].card@[j].app_order@,
            ) matches Some(m) && n == m as u32) && (forall|i2: int, j2: int|
                0 <= i2 < i && 0 <= j2 < devs[i2].card@.len() ==> #[trigger] devs[i2].card@[j2].phone_number@
                    != phone),
{
    let p = device_has_phone(phone);
    lemma_first_index(devs, p);
    let i = first_index(devs, p);
    assert forall|i2: int, j2: int|
        0 <= i2 < i && 0 <= j2 < devs[i2].card@.len() implies #[trigger] devs[i2].card@[j2].phone_number@
        != phone by {
        assert(!p(devs[i2]));
        lemma_first_index(devs[i2].card@, card_has_phone(phone));
        if devs[i2].card@[j2].phone_number@ == phone {
            assert(card_has_phone(phone)(devs[i2].card@[j2]));
        }
    }
    if i < devs.len() {
        let cards = devs[i].card@;
        lemma_first_index(cards, card_has_phone(phone));
        let j = first_index(cards, card_has_phone(phone));
        assert(p(devs[i]));
        assert(cards[j].phone_number@ == phone);
    }
}

/// Index of the first card of `cards` with the number, or `cards.len()`.
fn card_index(cards: &Vec<SimCard>, phone: &str) -> (k: usize)
    ensures
        k == first_index(cards@, card_has_phone(phone@)),
{
    let wanted = phone.to_owned();
    let mut k: usize = 0;
    while k < cards.len() && cards[k].phone_number != wanted
        invariant
            k <= cards.len(),
            wanted@ == phone@,
            forall|j: int| 0 <= j < k ==> !card_has_phone(phone@)(#[trigger] cards@[j]),
        decreases cards.len() - k,
    {
        k = k + 1;
    }
    proof {
        lemma_first_index_is(cards@, card_has_phone(phone@), k as int);
    }
    k
}

/// The device and the switcher position for a number.
pub fn locate_phone(devices: &Vec<SimDevice>, phone: &str) -> (res: Result<PhoneTarget, LocateError>)
    ensures
        match located(devices@, phone@) {
            Ok((d, n)) => res matches Ok(t) && t.device_id@ == d && t.app_order == n,
            Err(LocateError::NotFound) => res matches Err(LocateError::NotFound),
            Err(LocateError::InvalidAppOrder) => res matches Err(LocateError::InvalidAppOrder),
        },
{
    let mut i: usize = 0;
    while i < devices.len()
        invariant
            i <= devices.len(),
            forall|j: int| 0 <= j < i ==> !device_has_phone(phone@)(#[trigger] devices@[j]),
        decreases devices.len() - i,
    {
        let k = card_index(&devices[i].card, phone);
        if k < devices[i].card.len() {
            proof {
                lemma_first_index_is(devices@, device_has_phone(phone@), i as int);
            }
            let card = &devices[i].card[k];
            return match json_u64(card.app_order.as_str()) {
                Some(n) => Ok(PhoneTarget { device_id: devices[i].device_id.clone(), app_order: n as u32 }),
                None => Err(LocateError::InvalidAppOrder),
            };
        }
        i = i + 1;
    }
    proof {
        lemma_first_index_is(devices@, device_has_phone(phone@), i as int);
    }
    Err(LocateError::NotFound)
}

/// A SIM card to upsert.
pub struct CardImport {
    pub app_order: i32,
    pub phone_number: String,
    pub app_lable: String,
    pub no: String,
    pub sim_no: String,
    pub sim_number: String,
}

/// A device to upsert, with its cards.
pub struct DeviceImport {
    pub device_id: String,
    pub cards: Vec<CardImport>,
}

pub struct CardImportView {
    pub app_order: i32,
    pub phone_number: Seq<char>,
    pub app_lable: Seq<char>,
    pub no: Seq<char>,
    pub sim_no: Seq<char>,
    pub sim_number: Seq<char>,
}

pub struct DeviceImportView {
    pub device_id: Seq<char>,
    pub cards: Seq<CardImportView>,
}

impl View for CardImport {
    type V = CardImportView;

    open spec fn view(&self) -> CardImportView {
        CardImportView {
            app_order: self.app_order,
            phone_number: self.phone_number@,
            app_lable: self.app_lable@,
            no: self.no@,
            sim_no: self.sim_no@,
            sim_number: self.sim_number@,
        }
    }
}

impl View for DeviceImport {
    type V = DeviceImportView;

    open spec fn view(&self) -> DeviceImportView {
        DeviceImportView { device_id: self.device_id@, cards: self.cards@.map_values(|c: CardImport| c@) }
    }
}

/// An identifying field that the table holds as a string or as an integer,
/// as text: the string, the integer in decimal, or empty.
pub open spec fn ident_text(card: Seq<char>, key: Seq<char>) -> Seq<char> {
    match json_member_text(card, key) {
        Some(m) => match json_str_text(m) {
            Some(s) => s,
            None => match json_i64_text(m) {
                Some(n) => decimal_signed(n as int),
                None => Seq::empty(),
            },
        },
        None => Seq::empty(),
    }
}

/// The card's `app_order` as an integer (0 when it is none), cut to 32 bits.
pub open spec fn app_order_of(card: Seq<char>) -> i32 {
    let n: i64 = match json_member_text(card, "app_order"@) {
        Some(m) => match json_i64_text(m) {
            Some(n) => n,
            None => 0,
        },
        None => 0,
    };
    n as i32
}

pub open spec fn card_import_of(card: Seq<char>) -> CardImportView {
    CardImportView {
        app_order: app_order_of(card),
        phone_number: member_str_or_empty(card, "phone_number"@),
        app_lable: member_str_or_empty(card, "app_lable"@),
        no: ident_text(card, "no"@),
        sim_no: ident_text(card, "sim_no"@),
        sim_number: member_str_or_empty(card, "sim_number"@),
    }
}

/// The cards of a device entry: its `card` array, or none when it has no array.
pub open spec fn cards_of(dev: Seq<char>) -> Seq<Seq<char>> {
    match json_member_text(dev, "card"@) {
        Some(m) => match json_items_text(m) {
            Some(items) => items,
            None => Seq::empty(),
        },
        None => Seq::empty(),
    }
}

/// A device entry to upsert, unless its `device_id` is missing or empty.
pub open spec fn device_import_of(dev: Seq<char>) -> Option<DeviceImportView> {
    let id = member_str_or_empty(dev, "device_id"@);
    if id.len() == 0 {
        None
    } else {
        Some(DeviceImportView { device_id: id, cards: cards_of(dev).map_values(|c: Seq<char>| card_import_of(c)) })
    }
}

pub open spec fn imports_of(devs: Seq<Seq<char>>) -> Seq<DeviceImportView>
    decreases devs.len(),
{
    if devs.len() == 0 {
        Seq::empty()
    } else {
        let rest = imports_of(devs.drop_last());
        match device_import_of(devs.last()) {
            Some(d) => rest.push(d),
            None => rest,
        }
    }
}

/// What importing a table file upserts: `None` when the file is not a JSON array.
pub open spec fn import_plan_of(content: Seq<char>) -> Option<Seq<DeviceImportView>> {
    match json_items_text(content) {
        Some(devs) => Some(imports_of(devs)),
        None => None,
    }
}

fn ident_of(card: &str, key: &str) -> (res: String)
    ensures
        res@ == ident_text(card@, key@),
{
    match json_member(card, key) {
        Some(m) => match json_str(m.as_str()) {
            Some(s) => s,
            None => match json_i64(m.as_str()) {
                Some(n) => {
                    let mut digits: Vec<char> = Vec::new();
                    push_decimal_signed(&mut digits, n);
                    assert(digits@ =~= decimal_signed(n as int));
                    string_from_chars(digits.as_slice())
                },
                None => String::new(),
            },
        },
        None => String::new(),
    }
}

fn card_import(card: &str) -> (res: CardImport)
    ensures
        res@ == card_import_of(card@),
{
    let app_order: i64 = match json_member(card, "app_order") {
        Some(m) => match json_i64(m.as_str()) {
            Some(n) => n,
            None => 0,
        },
        None => 0,
    };
    CardImport {
        app_order: app_order as i32,
        phone_number: member_str_or_empty_of(card, "phone_number"),
        app_lable: member_str_or_empty_of(card, "app_lable"),
        no: ident_of(card, "no"),
        sim_no: ident_of(card, "sim_no"),
        sim_number: member_str_or_empty_of(card, "sim_number"),
    }
}

fn device_import(dev: &str) -> (res: Option<DeviceImport>)
    ensures
        match device_import_of(dev@) {
            Some(d) => res matches Some(r) && r@ == d,
            None => res is None,
        },
{
    let device_id = member_str_or_empty_of(dev, "device_id");
    if device_id.as_str().is_empty() {
        return None;
    }
    let items: Vec<String> = match json_member(dev, "card") {
        Some(m) => match json_items(m.as_str()) {
            Some(v) => v,
            None => Vec::new(),
        },
        None => Vec::new(),
    };
    let ghost item_texts = items@.map_values(|s: String| s@);
    assert(item_texts == cards_of(dev@));
    let mut cards: Vec<CardImport> = Vec::new();
    let mut j: usize = 0;
    while j < items.len()
        invariant
            j <= items.len(),
            item_texts == items@.map_values(|s: String| s@),
            cards@.map_values(|c: CardImport| c@) == item_texts.take(j as int).map_values(
                |c: Seq<char>| card_import_of(c),
            ),
        decreases items.len() - j,
    {
        let c = card_import(items[j].as_str());
        let ghost before = cards@;
        assert(items@[j as int]@ == item_texts[j as int]);
        assert(item_texts.take(j + 1) =~= item_texts.take(j as int).push(item_texts[j as int]));
        cards.push(c);
        assert(cards@.map_values(|c: CardImport| c@) =~= before.map_values(|c: CardImport| c@).push(
            c@,
        ));
        assert(item_texts.take(j + 1).map_values(|c: Seq<char>| card_import_of(c)) =~= item_texts.take(
            j as int,
        ).map_values(|c: Seq<char>| card_import_of(c)).push(card_import_of(item_texts[j as int])));
        j = j + 1;
    }
    assert(item_texts.take(items.len() as int) =~= item_texts);
    Some(DeviceImport { device_id, cards })
}

/// What importing a table file upserts, device by device.
pub fn plan_import(content: &str) -> (res: Option<Vec<DeviceImport>>)
    ensures
        match import_plan_of(content@) {
            Some(p) => res matches Some(v) && v@.map_values(|d: DeviceImport| d@) == p,
            None => res is None,
        },
{
    let devs = match json_items(content) {
        Some(v) => v,
        None => return None,
    };
    let ghost texts = devs@.map_values(|s: String| s@);
    let mut out: Vec<DeviceImport> = Vec::new();
    let mut i: usize = 0;
    assert(texts.take(0) =~= Seq::<Seq<char>>::empty());
    assert(out@.map_values(|d: DeviceImport| d@) =~= Seq::<DeviceImportView>::empty());
    while i < devs.len()
        invariant
            i <= devs.len(),
            texts == devs@.map_values(|s: String| s@),
            out@.map_values(|d: DeviceImport| d@) == imports_of(texts.take(i as int)),
        decreases devs.len() - i,
    {
        let ghost sub = texts.take(i + 1);
        assert(sub.drop_last() =~= texts.take(i as int));
        assert(sub.last() == devs@[i as int]@);
        match device_import(devs[i].as_str()) {
            Some(d) => {
                let ghost before = out@;
                out.push(d);
                assert(out@.map_values(|d: DeviceImport| d@) =~= before.map_values(
                    |d: DeviceImport| d@,
                ).push(out@.last()@));
            },
            None => {},
        }
        i = i + 1;
    }
    assert(texts.take(devs.len() as int) =~= texts);
    Some(out)
}

} // verus!
