//! The health report.
//!
//! The answer to a request with `health_only`: one [`Frame::Json`](crate::Frame::Json)
//! that carries this report, then `Done` with a count of 0. The model is not touched.
//!
//! Every field has a default, so that a report can gain fields without breaking older
//! readers, and a newer reader can take an older report.

use serde_json::Value;
use vstd::prelude::*;
use vstd::string::*;
use vstd::utf8::*;

use crate::json;
use crate::json::Json;
use crate::parts::MemberView;
use crate::place;
use crate::record;
use crate::record::{Arity, Held, HeldView, JsonError, Kind, Shape, ShapeView};
use crate::response;
use crate::spelled;
use crate::spelled::{Item, Spelled};

verus! {

/// A provider's report on itself.
#[derive(Debug, Clone)]
pub struct Health {
    /// Coarse readiness, such as `"ok"` or `"starting"`.
    pub status: String,
    /// The serving model's name.
    pub model: String,
    /// Whether the model's weights are loaded.
    pub model_loaded: bool,
    /// Seconds since the provider started to serve.
    pub uptime_secs: u64,
    /// The protocol revision that the provider speaks: see [`crate::PROTOCOL_VERSION`].
    pub protocol_version: u32,
}

/// What a report says.
#[verifier::ext_equal]
pub struct HealthView {
    pub status: Seq<char>,
    pub model: Seq<char>,
    pub model_loaded: bool,
    pub uptime_secs: u64,
    pub protocol_version: u32,
}

impl View for Health {
    type V = HealthView;

    open spec fn view(&self) -> HealthView {
        HealthView {
            status: self.status@,
            model: self.model@,
            model_loaded: self.model_loaded,
            uptime_secs: self.uptime_secs,
            protocol_version: self.protocol_version,
        }
    }
}

/// The report in which every field has its default.
pub open spec fn default_health() -> HealthView {
    HealthView {
        status: Seq::empty(),
        model: Seq::empty(),
        model_loaded: false,
        uptime_secs: 0,
        protocol_version: 0,
    }
}

impl Default for Health {
    fn default() -> (health: Self)
        ensures
            health@ == default_health(),
            health.status@.len() == 0,
            health.model@.len() == 0,
            !health.model_loaded,
            health.uptime_secs == 0,
            health.protocol_version == 0,
    {
        Health {
            status: String::new(),
            model: String::new(),
            model_loaded: false,
            uptime_secs: 0,
            protocol_version: 0,
        }
    }
}

impl HealthView {
    /// The fields of the report's JSON text, in order.
    pub open spec fn fields(self) -> Seq<(Seq<char>, Json)> {
        Seq::empty().push(("status"@, Json::Text(self.status))).push(
            ("model"@, Json::Text(self.model)),
        ).push(("model_loaded"@, Json::Bool(self.model_loaded))).push(
            ("uptime_secs"@, Json::Integer(self.uptime_secs as int)),
        ).push(("protocol_version"@, Json::Integer(self.protocol_version as int)))
    }
}

/// What a report looks like.
pub open spec fn health_shape() -> ShapeView {
    ShapeView {
        title: "struct Health"@,
        extent: "struct Health with 5 elements"@,
        fields: seq![
            ("status"@, Kind::Text),
            ("model"@, Kind::Text),
            ("model_loaded"@, Kind::Flag),
            ("uptime_secs"@, Kind::Long),
            ("protocol_version"@, Kind::Word),
        ],
        required: 0,
        arity: Arity::Five,
    }
}

/// The report whose fields hold what is in the slots, and their defaults where nothing is.
pub open spec fn health_of(slots: Seq<Option<HeldView>>) -> HealthView {
    HealthView {
        status: record::text_of(record::slot(slots, 0)),
        model: record::text_of(record::slot(slots, 1)),
        model_loaded: record::flag_of(record::slot(slots, 2)),
        uptime_secs: record::long_of(record::slot(slots, 3)),
        protocol_version: record::word_of(record::slot(slots, 4)),
    }
}

/// The report that a JSON text spells, or what is wrong with it first. Members that no field
/// is named after count for nothing.
pub open spec fn read_report(text: Seq<char>) -> Result<HealthView, Seq<char>> {
    match record::read_fields(encode_utf8(text), health_shape()) {
        Ok(slots) => Ok(health_of(slots)),
        Err(e) => Err(e),
    }
}

impl Health {
    /// Writes the report as JSON text.
    ///
    /// This always succeeds, and [`from_json`](Self::from_json) reads the report back.
    pub fn to_json(&self) -> (result: Result<String, serde_json::Error>)
        ensures
            result is Ok,
            result matches Ok(text) ==> text@ == json::object_text(self@.fields()),
            result matches Ok(text) ==> read_report(text@) == Ok::<HealthView, Seq<char>>(
                self@,
            ),
    {
        let mut fields: Vec<(String, Value)> = Vec::new();
        assert(json::fields_view(fields@) =~= Seq::empty());
        record::push_field(&mut fields, "status", json::text_value(self.status.as_str()));
        record::push_field(&mut fields, "model", json::text_value(self.model.as_str()));
        record::push_field(&mut fields, "model_loaded", json::flag_value(self.model_loaded));
        record::push_field(&mut fields, "uptime_secs", json::number_value(self.uptime_secs));
        record::push_field(
            &mut fields,
            "protocol_version",
            json::number_value(self.protocol_version as u64),
        );
        assert(json::fields_view(fields@) == self@.fields());
        proof {
            fields_round_trip(self@);
        }
        let bytes = json::write_object(&fields)?;
        proof {
            record::written_object(health_shape(), self@.fields());
            encode_utf8_valid_utf8(json::object_text(self@.fields()));
            encode_utf8_decode_utf8(json::object_text(self@.fields()));
        }
        Ok(response::utf8(bytes.as_slice()).unwrap())
    }

    /// Reads a report from JSON text.
    pub fn from_json(text: &str) -> (result: Result<Self, JsonError>)
        ensures
            match result {
                Ok(health) => read_report(text@) == Ok::<HealthView, Seq<char>>(health@),
                Err(e) => read_report(text@) == Err::<HealthView, Seq<char>>(e@),
            },
    {
        match record::read(text.as_bytes(), &shape()) {
            Ok(slots) => Ok(Self::from_slots(&slots)),
            Err(e) => Err(e),
        }
    }

    /// Takes the report out of what was read into its fields, in the order in which they are
    /// declared. A field into which nothing was read has its default.
    pub fn from_slots(slots: &Vec<Option<Held>>) -> (health: Self)
        ensures
            health@ == health_of(record::slots_view(slots@)),
            slots@.len() > 0 ==> (slots@[0] matches Some(Held::Text(v)) ==> health.status@ == v@),
            slots@.len() <= 0 || slots@[0] is None ==> health.status@.len() == 0,
            slots@.len() > 1 ==> (slots@[1] matches Some(Held::Text(v)) ==> health.model@ == v@),
            slots@.len() <= 1 || slots@[1] is None ==> health.model@.len() == 0,
            slots@.len() > 2 ==> (slots@[2] matches Some(Held::Flag(v))
                ==> health.model_loaded == v),
            slots@.len() <= 2 || slots@[2] is None ==> !health.model_loaded,
            slots@.len() > 3 ==> (slots@[3] matches Some(Held::Long(v))
                ==> health.uptime_secs == v),
            slots@.len() <= 3 || slots@[3] is None ==> health.uptime_secs == 0,
            slots@.len() > 4 ==> (slots@[4] matches Some(Held::Word(v))
                ==> health.protocol_version == v),
            slots@.len() <= 4 || slots@[4] is None ==> health.protocol_version == 0,
    {
        proof {
            slots_are_fields(record::slots_view(slots@));
            record::slots_say(slots@);
        }
        Health {
            status: record::take_text(slots, 0),
            model: record::take_text(slots, 1),
            model_loaded: record::take_flag(slots, 2),
            uptime_secs: record::take_long(slots, 3),
            protocol_version: record::take_word(slots, 4),
        }
    }
}

/// Builds the shape of a report.
fn shape() -> (shape: Shape)
    ensures
        shape@ == health_shape(),
{
    let mut fields: Vec<(&'static str, Kind)> = Vec::new();
    fields.push(("status", Kind::Text));
    fields.push(("model", Kind::Text));
    fields.push(("model_loaded", Kind::Flag));
    fields.push(("uptime_secs", Kind::Long));
    fields.push(("protocol_version", Kind::Word));
    let shape = Shape {
        title: "struct Health",
        extent: "struct Health with 5 elements",
        fields,
        required: 0,
        arity: Arity::Five,
    };
    assert(shape@.fields =~= health_shape().fields);
    shape
}

proof fn names_differ()
    ensures
        "status"@.len() == 6,
        "model"@.len() == 5,
        "model_loaded"@.len() == 12,
        "uptime_secs"@.len() == 11,
        "protocol_version"@.len() == 16,
{
    reveal_strlit("status");
    reveal_strlit("model");
    reveal_strlit("model_loaded");
    reveal_strlit("uptime_secs");
    reveal_strlit("protocol_version");
}

/// What is in the slots when a report was read.
pub open spec fn slots_of(h: HealthView) -> Seq<Option<HeldView>> {
    seq![
        Some(HeldView::Text(h.status)),
        Some(HeldView::Text(h.model)),
        Some(HeldView::Flag(h.model_loaded)),
        Some(HeldView::Long(h.uptime_secs)),
        Some(HeldView::Word(h.protocol_version)),
    ]
}

/// The values that a report is written as fill its fields with what it says.
pub proof fn fields_round_trip(h: HealthView)
    ensures
        record::with_values(health_shape().fields, h.fields()) == Some(slots_of(h)),
        health_of(slots_of(h)) == h,
        forall|i: int|
            0 <= i < h.fields().len() ==> json::reads_back(
                (#[trigger] h.fields()[i]).1,
                json::MAX_DEPTH as nat,
            ),
{
    names_differ();
    let fields = health_shape().fields;
    let f0 = Seq::<(Seq<char>, Json)>::empty();
    let f1 = f0.push(("status"@, Json::Text(h.status)));
    let f2 = f1.push(("model"@, Json::Text(h.model)));
    let f3 = f2.push(("model_loaded"@, Json::Bool(h.model_loaded)));
    let f4 = f3.push(("uptime_secs"@, Json::Integer(h.uptime_secs as int)));
    record::named_field(fields, 0);
    record::named_field(fields, 1);
    record::named_field(fields, 2);
    record::named_field(fields, 3);
    record::named_field(fields, 4);
    record::one_more(fields, f0, ("status"@, Json::Text(h.status)));
    record::one_more(fields, f1, ("model"@, Json::Text(h.model)));
    record::one_more(fields, f2, ("model_loaded"@, Json::Bool(h.model_loaded)));
    record::one_more(fields, f3, ("uptime_secs"@, Json::Integer(h.uptime_secs as int)));
    record::one_more(
        fields,
        f4,
        ("protocol_version"@, Json::Integer(h.protocol_version as int)),
    );
    assert(record::with_values(fields, h.fields())->0 =~= slots_of(h));
}

/// A field has its default wherever the report leaves it out.
pub proof fn absent_fields_have_defaults(bytes: Seq<u8>, members: Seq<MemberView>)
    ensures
        record::filled(bytes, health_shape().fields, members) matches Ok(slots) ==> {
            let read = health_of(slots);
            let plain = default_health();
            &&& record::lacks(members, "status"@) ==> read.status == plain.status
            &&& record::lacks(members, "model"@) ==> read.model == plain.model
            &&& record::lacks(members, "model_loaded"@) ==> read.model_loaded == plain.model_loaded
            &&& record::lacks(members, "uptime_secs"@) ==> read.uptime_secs == plain.uptime_secs
            &&& record::lacks(members, "protocol_version"@) ==> read.protocol_version
                == plain.protocol_version
        },
{
    let fields = health_shape().fields;
    if record::lacks(members, "status"@) {
        record::absent_field(bytes, fields, members, 0);
    }
    if record::lacks(members, "model"@) {
        record::absent_field(bytes, fields, members, 1);
    }
    if record::lacks(members, "model_loaded"@) {
        record::absent_field(bytes, fields, members, 2);
    }
    if record::lacks(members, "uptime_secs"@) {
        record::absent_field(bytes, fields, members, 3);
    }
    if record::lacks(members, "protocol_version"@) {
        record::absent_field(bytes, fields, members, 4);
    }
}

/// A closed object without any of the fields is the report in which all have their defaults,
/// unless something follows it.
pub proof fn no_field_is_needed(bytes: Seq<u8>, members: Seq<MemberView>, end: int)
    requires
        record::filled(bytes, health_shape().fields, members) is Ok,
        record::lacks(members, "status"@),
        record::lacks(members, "model"@),
        record::lacks(members, "model_loaded"@),
        record::lacks(members, "uptime_secs"@),
        record::lacks(members, "protocol_version"@),
        json::object_fault(bytes) is None,
    ensures
        record::object_fields(bytes, health_shape(), members, Some(end)) matches Ok(slots)
            && health_of(slots) == default_health(),
{
    absent_fields_have_defaults(bytes, members);
}

/// A member that no field is named after changes nothing, whatever it holds and wherever
/// it stands: an older reader takes a newer report.
pub proof fn unknown_members_are_ignored(
    bytes: Seq<u8>,
    members: Seq<MemberView>,
    end: Option<int>,
    at: int,
    other: MemberView,
)
    requires
        0 <= at <= members.len(),
        other.name != "status"@,
        other.name != "model"@,
        other.name != "model_loaded"@,
        other.name != "uptime_secs"@,
        other.name != "protocol_version"@,
    ensures
        record::object_fields(bytes, health_shape(), members.insert(at, other), end)
            == record::object_fields(bytes, health_shape(), members, end),
{
    record::found_field(health_shape().fields, other.name);
    record::other_member(bytes, health_shape().fields, members, at, other);
}

/// A field that stands twice in a report is refused, whichever it is.
pub proof fn repeated_fields_are_refused(
    bytes: Seq<u8>,
    members: Seq<MemberView>,
    end: Option<int>,
    i: int,
    j: int,
)
    requires
        0 <= i < j < members.len(),
        members[i].name == members[j].name,
        members[i].value is Some,
        exists|k: int|
            0 <= k < health_shape().fields.len() && members[i].name == (
            #[trigger] health_shape().fields[k]).0,
    ensures
        record::object_fields(bytes, health_shape(), members, end) is Err,
{
    let k = choose|k: int|
        0 <= k < health_shape().fields.len() && members[i].name == (
        #[trigger] health_shape().fields[k]).0;
    names_differ();
    record::named_field(health_shape().fields, k);
    record::repeated_field(bytes, health_shape().fields, members, i, j);
}

/// The names that a report is written with are all those of fields.
proof fn fields_are_known(h: HealthView)
    ensures
        record::known(health_shape().fields, h.fields()) == h.fields(),
        h.fields().len() > 0,
{
    names_differ();
    record::named_field(health_shape().fields, 0);
    record::named_field(health_shape().fields, 1);
    record::named_field(health_shape().fields, 2);
    record::named_field(health_shape().fields, 3);
    record::named_field(health_shape().fields, 4);
    record::all_known(health_shape().fields, h.fields());
}

/// Members that no field is named after change nothing of a report, whatever they hold,
/// however many they are and wherever they stand in its text: an older reader takes a newer
/// report.
pub proof fn further_members_are_passed_over(
    h: HealthView,
    values: Seq<(Seq<char>, Json)>,
)
    requires
        record::known(health_shape().fields, values) == h.fields(),
        record::writable(health_shape().fields, values),
    ensures
        read_report(json::object_text(values)) == Ok::<HealthView, Seq<char>>(h),
{
    fields_are_known(h);
    fields_round_trip(h);
    record::further_values(health_shape().fields, values);
    record::written_object(health_shape(), values);
}

/// One further member, under a name that no field has, changes nothing of a report, whatever
/// it holds and wherever it stands in its text.
pub proof fn further_member_is_passed_over(h: HealthView, at: int, name: Seq<char>, value: Json)
    requires
        0 <= at <= h.fields().len(),
        record::field_named(health_shape().fields, name) is None,
        json::legible(Json::Text(name)),
        json::skippable(value),
        forall|i: int|
            #![trigger h.fields()[i]]
            0 <= i < h.fields().len() ==> json::legible(Json::Text(h.fields()[i].0))
                && json::legible(h.fields()[i].1),
        json::object_fault(
            encode_utf8(json::object_text(h.fields().insert(at, (name, value)))),
        ) is None,
    ensures
        read_report(json::object_text(h.fields().insert(at, (name, value)))) == Ok::<
            HealthView,
            Seq<char>,
        >(h),
{
    let fields = health_shape().fields;
    let written = h.fields();
    fields_are_known(h);
    record::known_insert(fields, written, at, (name, value));
    record::writable_insert(fields, written, at, (name, value));
    further_members_are_passed_over(h, written.insert(at, (name, value)));
}

/// A report says what its fields hold, each its own.
pub proof fn health_says(h: Health)
    ensures
        h@.status == h.status@,
        h@.model == h.model@,
        h@.model_loaded == h.model_loaded,
        h@.uptime_secs == h.uptime_secs,
        h@.protocol_version == h.protocol_version,
{
}

/// Each field of a report depends on its own slot alone: it is exactly the value that is
/// there, whatever the other slots hold, and its default where nothing is there.
pub proof fn slots_are_fields(slots: Seq<Option<HeldView>>)
    ensures
        ({
            let read = health_of(slots);
            &&& slots.len() > 0 ==> (slots[0] matches Some(HeldView::Text(v)) ==> read.status == v)
            &&& slots.len() <= 0 || slots[0] is None ==> read.status.len() == 0
            &&& slots.len() > 1 ==> (slots[1] matches Some(HeldView::Text(v)) ==> read.model == v)
            &&& slots.len() <= 1 || slots[1] is None ==> read.model.len() == 0
            &&& slots.len() > 2 ==> (slots[2] matches Some(HeldView::Flag(v))
                ==> read.model_loaded == v)
            &&& slots.len() <= 2 || slots[2] is None ==> !read.model_loaded
            &&& slots.len() > 3 ==> (slots[3] matches Some(HeldView::Long(v))
                ==> read.uptime_secs == v)
            &&& slots.len() <= 3 || slots[3] is None ==> read.uptime_secs == 0
            &&& slots.len() > 4 ==> (slots[4] matches Some(HeldView::Word(v))
                ==> read.protocol_version == v)
            &&& slots.len() <= 4 || slots[4] is None ==> read.protocol_version == 0
        }),
{
}

/// What a report is written as: each field under its own name, in the order in which they are
/// declared.
pub proof fn written_in_order(h: HealthView)
    ensures
        h.fields().len() == 5,
        h.fields()[0] == ("status"@, Json::Text(h.status)),
        h.fields()[1] == ("model"@, Json::Text(h.model)),
        h.fields()[2] == ("model_loaded"@, Json::Bool(h.model_loaded)),
        h.fields()[3] == ("uptime_secs"@, Json::Integer(h.uptime_secs as int)),
        h.fields()[4] == ("protocol_version"@, Json::Integer(h.protocol_version as int)),
{
}

/// The place of each name among the fields.
proof fn places()
    ensures
        record::field_named(health_shape().fields, "status"@) == Some(0int),
        record::field_named(health_shape().fields, "model"@) == Some(1int),
        record::field_named(health_shape().fields, "model_loaded"@) == Some(2int),
        record::field_named(health_shape().fields, "uptime_secs"@) == Some(3int),
        record::field_named(health_shape().fields, "protocol_version"@) == Some(4int),
{
    names_differ();
    let fields = health_shape().fields;
    record::named_field(fields, 0);
    record::named_field(fields, 1);
    record::named_field(fields, 2);
    record::named_field(fields, 3);
    record::named_field(fields, 4);
}

/// The report that the bytes of a text spell.
pub open spec fn read_bytes(bytes: Seq<u8>) -> Result<HealthView, Seq<char>> {
    match record::read_fields(bytes, health_shape()) {
        Ok(slots) => Ok(health_of(slots)),
        Err(e) => Err(e),
    }
}

/// A text is read by its bytes.
pub proof fn text_is_read_by_its_bytes(text: Seq<char>)
    ensures
        read_report(text) == read_bytes(encode_utf8(text)),
{
}

/// Whether a field has that name.
pub open spec fn is_field(name: Seq<char>) -> bool {
    ||| name == "status"@
    ||| name == "model"@
    ||| name == "model_loaded"@
    ||| name == "uptime_secs"@
    ||| name == "protocol_version"@
}

/// Whether the bytes are read as what the field of that name can hold, if there is one.
pub open spec fn readable(name: Seq<char>, value: Seq<u8>) -> bool {
    &&& name == "status"@ ==> exists|v: Seq<char>| spelled::spells_text(value, v)
    &&& name == "model"@ ==> exists|v: Seq<char>| spelled::spells_text(value, v)
    &&& name == "model_loaded"@ ==> exists|v: bool| spelled::spells_flag(value, v)
    &&& name == "uptime_secs"@ ==> exists|v: u64| spelled::spells_long(value, v)
    &&& name == "protocol_version"@ ==> exists|v: u32| spelled::spells_word(value, v)
}

/// Whether a report holds what the bytes are read as in the field of that name, if there is
/// one.
pub open spec fn says(h: HealthView, name: Seq<char>, value: Seq<u8>) -> bool {
    &&& name == "status"@ ==> spelled::spells_text(value, h.status)
    &&& name == "model"@ ==> spelled::spells_text(value, h.model)
    &&& name == "model_loaded"@ ==> spelled::spells_flag(value, h.model_loaded)
    &&& name == "uptime_secs"@ ==> spelled::spells_long(value, h.uptime_secs)
    &&& name == "protocol_version"@ ==> spelled::spells_word(value, h.protocol_version)
}

/// Whether no member has that name.
pub open spec fn unspelled(ms: Seq<Spelled>, name: Seq<char>) -> bool {
    forall|i: int| 0 <= i < ms.len() ==> (#[trigger] ms[i]).called != name
}

/// Whether the members can be read: each is spelled well and holds what its field can, and
/// none that a field is named after comes twice.
pub open spec fn all_readable(ms: Seq<Spelled>) -> bool {
    &&& spelled::all_well_spelled(ms)
    &&& forall|i: int|
        #![trigger ms[i]]
        0 <= i < ms.len() ==> readable(ms[i].called, ms[i].value)
    &&& forall|i: int, j: int|
        #![trigger ms[i], ms[j]]
        0 <= i < j < ms.len() && ms[i].called == ms[j].called ==> !is_field(ms[i].called)
}

/// What the field of that name holds of a value that it can hold.
spec fn held_for(name: Seq<char>, value: Seq<u8>) -> HeldView {
    let fields = health_shape().fields;
    let kind = fields[record::field_named(fields, name)->0].1;
    choose|held: HeldView| spelled::spells(kind, value, held)
}

/// A value that a field can hold is read as something.
proof fn readable_is_held(name: Seq<char>, value: Seq<u8>)
    requires
        readable(name, value),
    ensures
        record::field_named(health_shape().fields, name) matches Some(f) ==> spelled::spells(
            health_shape().fields[f].1,
            value,
            held_for(name, value),
        ),
        record::field_named(health_shape().fields, name) is Some <==> is_field(name),
{
    places();
    let fields = health_shape().fields;
    record::found_field(fields, name);
    if let Some(f) = record::field_named(fields, name) {
        assert(exists|held: HeldView| spelled::spells(fields[f].1, value, held)) by {
            if f == 0 {
                let v = choose|v: Seq<char>| spelled::spells_text(value, v);
                assert(spelled::spells(fields[f].1, value, HeldView::Text(v)));
            }
            if f == 1 {
                let v = choose|v: Seq<char>| spelled::spells_text(value, v);
                assert(spelled::spells(fields[f].1, value, HeldView::Text(v)));
            }
            if f == 2 {
                let v = choose|v: bool| spelled::spells_flag(value, v);
                assert(spelled::spells(fields[f].1, value, HeldView::Flag(v)));
            }
            if f == 3 {
                let v = choose|v: u64| spelled::spells_long(value, v);
                assert(spelled::spells(fields[f].1, value, HeldView::Long(v)));
            }
            if f == 4 {
                let v = choose|v: u32| spelled::spells_word(value, v);
                assert(spelled::spells(fields[f].1, value, HeldView::Word(v)));
            }
        }
    }
}

/// What the members hold, in order.
spec fn helds_of(ms: Seq<Spelled>) -> Seq<HeldView> {
    Seq::new(ms.len(), |i: int| held_for(ms[i].called, ms[i].value))
}

/// Members that can be read are fit to be.
proof fn readable_is_fit(ms: Seq<Spelled>)
    requires
        all_readable(ms),
    ensures
        spelled::fit(health_shape().fields, ms, helds_of(ms)),
{
    assert forall|i: int| #![trigger ms[i]] 0 <= i < ms.len() implies (record::field_named(
        health_shape().fields,
        ms[i].called,
    ) matches Some(f) ==> spelled::spells(
        health_shape().fields[f].1,
        ms[i].value,
        helds_of(ms)[i],
    )) by {
        readable_is_held(ms[i].called, ms[i].value);
    }
    assert forall|i: int, j: int|
        #![trigger ms[i], ms[j]]
        0 <= i < j < ms.len() && ms[i].called == ms[j].called implies record::field_named(
        health_shape().fields,
        ms[i].called,
    ) is None by {
        readable_is_held(ms[i].called, ms[i].value);
    }
}

/// What is in the slots when members were taken is what the report of these slots says.
#[verifier::spinoff_prover]
proof fn taken_is_said(ms: Seq<Spelled>, slots: Seq<Option<HeldView>>)
    requires
        all_readable(ms),
        spelled::taken(health_shape().fields, ms, helds_of(ms), slots),
    ensures
        slots.len() == 5,
        ({
            let h = health_of(slots);
            &&& forall|i: int|
                #![trigger ms[i]]
                0 <= i < ms.len() ==> says(h, ms[i].called, ms[i].value)
            &&& unspelled(ms, "status"@) ==> h.status.len() == 0 && slots[0] is None
            &&& unspelled(ms, "model"@) ==> h.model.len() == 0 && slots[1] is None
            &&& unspelled(ms, "model_loaded"@) ==> !h.model_loaded && slots[2] is None
            &&& unspelled(ms, "uptime_secs"@) ==> h.uptime_secs == 0 && slots[3] is None
            &&& unspelled(ms, "protocol_version"@) ==> h.protocol_version == 0 && slots[4] is None
        }),
{
    places();
    let fields = health_shape().fields;
    let h = health_of(slots);
    assert forall|i: int| #![trigger ms[i]] 0 <= i < ms.len() implies says(
        h,
        ms[i].called,
        ms[i].value,
    ) by {
        readable_is_held(ms[i].called, ms[i].value);
    }
    assert forall|f: int|
        0 <= f < 5 && unspelled(ms, fields[f].0) implies (#[trigger] slots[f]) is None by {
        assert forall|i: int| 0 <= i < ms.len() implies record::field_named(
            fields,
            (#[trigger] ms[i]).called,
        ) != Some(f) by {
            record::found_field(fields, ms[i].called);
        }
    }
    assert(unspelled(ms, fields[0].0) ==> slots[0] is None);
    assert(unspelled(ms, fields[1].0) ==> slots[1] is None);
    assert(unspelled(ms, fields[2].0) ==> slots[2] is None);
    assert(unspelled(ms, fields[3].0) ==> slots[3] is None);
    assert(unspelled(ms, fields[4].0) ==> slots[4] is None);
}

/// A report is what its members say, however they are spelled and in whatever order they
/// come: each field is what the member of its own name is read as, whatever the others are,
/// and has its default where there is none. Members of other names count for nothing.
#[verifier::spinoff_prover]
pub proof fn members_are_read(before: Seq<u8>, ms: Seq<Spelled>, after: Seq<u8>)
    requires
        spelled::blank(before),
        ms.len() > 0,
        all_readable(ms),
        json::object_fault(spelled::object_bytes(before, ms, after)) is None,
    ensures
        read_bytes(spelled::object_bytes(before, ms, after)) matches Ok(h) && (forall|i: int|
            #![trigger ms[i]]
            0 <= i < ms.len() ==> says(h, ms[i].called, ms[i].value))
            && (unspelled(ms, "status"@) ==> h.status.len() == 0)
            && (unspelled(ms, "model"@) ==> h.model.len() == 0)
            && (unspelled(ms, "model_loaded"@) ==> !h.model_loaded)
            && (unspelled(ms, "uptime_secs"@) ==> h.uptime_secs == 0)
            && (unspelled(ms, "protocol_version"@) ==> h.protocol_version == 0),
{
    readable_is_fit(ms);
    let slots = spelled::object_is_read(before, ms, after, health_shape(), helds_of(ms));
    taken_is_said(ms, slots);
    places();
    spelled::none_missing(slots, 0);
}

/// Where something else is wrong with the text as a whole, such as more text behind the object,
/// that is told.
#[verifier::spinoff_prover]
pub proof fn faulty_text_is_told(
    before: Seq<u8>,
    ms: Seq<Spelled>,
    after: Seq<u8>,
    message: Seq<char>,
)
    requires
        spelled::blank(before),
        ms.len() > 0,
        all_readable(ms),
        json::object_fault(spelled::object_bytes(before, ms, after)) == Some(message),
    ensures
        read_bytes(spelled::object_bytes(before, ms, after))
            == Err::<HealthView, Seq<char>>(message),
{
    readable_is_fit(ms);
    let slots = spelled::object_is_read(before, ms, after, health_shape(), helds_of(ms));
    taken_is_said(ms, slots);
    places();
    spelled::none_missing(slots, 0);
}

/// A member that a field is named after and that comes a second time is told, at its colon,
/// whatever it holds and whatever stands behind it.
pub proof fn repeated_member_is_told(
    before: Seq<u8>,
    ms: Seq<Spelled>,
    after: Seq<u8>,
    i: int,
    j: int,
)
    requires
        spelled::blank(before),
        0 <= i < j < ms.len(),
        spelled::all_well_spelled(ms),
        all_readable(ms.take(j)),
        ms[i].called == ms[j].called,
        is_field(ms[j].called),
    ensures
        ({
            let bytes = spelled::object_bytes(before, ms, after);
            read_bytes(bytes) == Err::<HealthView, Seq<char>>(
                "duplicate field `"@ + ms[j].called + "`"@ + place::place(
                    bytes,
                    spelled::colon_at(before, ms, j),
                ),
            )
        }),
{
    readable_is_fit(ms.take(j));
    places();
    spelled::repeated_member_is_told(
        before,
        ms,
        after,
        health_shape(),
        helds_of(ms.take(j)),
        i,
        j,
    );
}

/// Whether the field of that name cannot hold what the bytes open with, for that reason.
pub open spec fn refused(name: Seq<char>, bytes: Seq<u8>, message: Seq<char>) -> bool {
    ||| name == "status"@ && json::text_read(bytes) == Err::<Seq<char>, Seq<char>>(message)
    ||| name == "model"@ && json::text_read(bytes) == Err::<Seq<char>, Seq<char>>(message)
    ||| name == "model_loaded"@ && json::flag_read(bytes) == Err::<bool, Seq<char>>(message)
    ||| name == "uptime_secs"@ && json::long_read(bytes) == Err::<u64, Seq<char>>(message)
    ||| name == "protocol_version"@ && json::word_read(bytes) == Err::<u32, Seq<char>>(message)
}

/// A member that its field cannot hold is told in the words for its value at its place,
/// whatever stands behind it.
pub proof fn misread_member_is_told(
    before: Seq<u8>,
    ms: Seq<Spelled>,
    after: Seq<u8>,
    j: int,
    copy: Seq<u8>,
    message: Seq<char>,
)
    requires
        spelled::blank(before),
        0 <= j < ms.len(),
        spelled::all_well_spelled(ms),
        all_readable(ms.take(j)),
        unspelled(ms.take(j), ms[j].called),
        spelled::is_blanked(
            copy,
            spelled::object_bytes(before, ms, after),
            spelled::colon_at(before, ms, j) + 1,
        ),
        refused(ms[j].called, copy, message),
    ensures
        read_bytes(spelled::object_bytes(before, ms, after))
            == Err::<HealthView, Seq<char>>(message),
{
    readable_is_fit(ms.take(j));
    places();
    assert forall|i: int| 0 <= i < j implies (#[trigger] ms[i]).called != ms[j].called by {
        assert(ms.take(j)[i] == ms[i]);
    }
    spelled::misread_member_is_told(
        before,
        ms,
        after,
        health_shape(),
        helds_of(ms.take(j)),
        j,
        copy,
        message,
    );
}

/// Whether the item at a place in an array is read as what the field at that place can hold.
pub open spec fn readable_item(i: int, value: Seq<u8>) -> bool {
    &&& i == 0 ==> exists|v: Seq<char>| spelled::spells_text(value, v)
    &&& i == 1 ==> exists|v: Seq<char>| spelled::spells_text(value, v)
    &&& i == 2 ==> exists|v: bool| spelled::spells_flag(value, v)
    &&& i == 3 ==> exists|v: u64| spelled::spells_long(value, v)
    &&& i == 4 ==> exists|v: u32| spelled::spells_word(value, v)
}

/// Whether a report holds what the bytes are read as in the field at that place.
pub open spec fn says_item(h: HealthView, i: int, value: Seq<u8>) -> bool {
    &&& i == 0 ==> spelled::spells_text(value, h.status)
    &&& i == 1 ==> spelled::spells_text(value, h.model)
    &&& i == 2 ==> spelled::spells_flag(value, h.model_loaded)
    &&& i == 3 ==> spelled::spells_long(value, h.uptime_secs)
    &&& i == 4 ==> spelled::spells_word(value, h.protocol_version)
}

/// What the item at a place holds.
spec fn item_for(i: int, value: Seq<u8>) -> HeldView {
    choose|held: HeldView| spelled::spells(health_shape().fields[i].1, value, held)
}

/// An item that a field can hold is read as something.
proof fn readable_item_is_held(i: int, value: Seq<u8>)
    requires
        0 <= i < 5,
        readable_item(i, value),
    ensures
        spelled::spells(health_shape().fields[i].1, value, item_for(i, value)),
{
    let kind = health_shape().fields[i].1;
    assert(exists|held: HeldView| spelled::spells(kind, value, held)) by {
        if i == 0 {
            let v = choose|v: Seq<char>| spelled::spells_text(value, v);
            assert(spelled::spells(kind, value, HeldView::Text(v)));
        }
        if i == 1 {
            let v = choose|v: Seq<char>| spelled::spells_text(value, v);
            assert(spelled::spells(kind, value, HeldView::Text(v)));
        }
        if i == 2 {
            let v = choose|v: bool| spelled::spells_flag(value, v);
            assert(spelled::spells(kind, value, HeldView::Flag(v)));
        }
        if i == 3 {
            let v = choose|v: u64| spelled::spells_long(value, v);
            assert(spelled::spells(kind, value, HeldView::Long(v)));
        }
        if i == 4 {
            let v = choose|v: u32| spelled::spells_word(value, v);
            assert(spelled::spells(kind, value, HeldView::Word(v)));
        }
    }
}

/// A report that is written as an array is what its items say, in the order in which the
/// fields are declared, however they are spelled. The fields behind the last item have their
/// defaults.
#[verifier::spinoff_prover]
pub proof fn items_are_read(before: Seq<u8>, items: Seq<Item>, after: Seq<u8>)
    requires
        spelled::blank(before),
        1 <= items.len() <= 5,
        forall|i: int|
            #![trigger items[i]]
            0 <= i < items.len() ==> spelled::well_spelled_item(items[i]) && readable_item(
                i,
                items[i].value,
            ),
        json::list_fault(spelled::list_bytes(before, items, after)) is None,
    ensures
        read_bytes(spelled::list_bytes(before, items, after)) matches Ok(h) && (forall|i: int|
            #![trigger items[i]]
            0 <= i < items.len() ==> says_item(h, i, items[i].value))
            && (items.len() <= 0 ==> h.status.len() == 0)
            && (items.len() <= 1 ==> h.model.len() == 0)
            && (items.len() <= 2 ==> !h.model_loaded)
            && (items.len() <= 3 ==> h.uptime_secs == 0)
            && (items.len() <= 4 ==> h.protocol_version == 0),
{
    let fields = health_shape().fields;
    let helds = Seq::new(items.len(), |i: int| item_for(i, items[i].value));
    assert forall|i: int| #![trigger items[i]] 0 <= i < items.len() implies spelled::spells(
        fields[i].1,
        items[i].value,
        helds[i],
    ) by {
        readable_item_is_held(i, items[i].value);
    }
    let slots = spelled::list_is_read(before, items, after, health_shape(), helds);
    let h = health_of(slots);
    assert forall|i: int| #![trigger items[i]] 0 <= i < items.len() implies says_item(
        h,
        i,
        items[i].value,
    ) by {
        assert(slots[i] == Some(helds[i]));
        assert(spelled::spells(fields[i].1, items[i].value, helds[i]));
    }
    assert(items.len() <= 0 ==> slots[0] is None);
    assert(items.len() <= 1 ==> slots[1] is None);
    assert(items.len() <= 2 ==> slots[2] is None);
    assert(items.len() <= 3 ==> slots[3] is None);
    assert(items.len() <= 4 ==> slots[4] is None);
}

/// A body that is neither an object nor an array is no report, and is told what was expected.
pub proof fn other_value_is_told(before: Seq<u8>, rest: Seq<u8>, fault: Seq<char>)
    requires
        spelled::blank(before),
        rest.len() > 0 ==> !spelled::is_blank(rest[0]) && rest[0] != 0x7b && rest[0] != 0x5b,
        json::object_fault(before + rest) == Some(fault),
    ensures
        read_bytes(before + rest) == Err::<HealthView, Seq<char>>(
            place::retold(
                fault,
                ", expected a map at line "@,
                ", expected "@ + "struct Health"@ + " at line "@,
            ),
        ),
{
    spelled::other_value_is_told(before, rest, health_shape());
}

/// An array with more items than the report has fields is refused in the words of `serde_json`
/// for an array of that many items.
pub proof fn long_list_is_told(
    before: Seq<u8>,
    items: Seq<Item>,
    after: Seq<u8>,
    fault: Seq<char>,
)
    requires
        spelled::blank(before),
        items.len() > 5,
        forall|i: int|
            #![trigger items[i]]
            0 <= i < items.len() ==> spelled::well_spelled_item(items[i]) && readable_item(
                i,
                items[i].value,
            ),
        json::five_fault(spelled::list_bytes(before, items, after)) == Some(fault),
    ensures
        read_bytes(spelled::list_bytes(before, items, after))
            == Err::<HealthView, Seq<char>>(fault),
{
    let helds = Seq::new(items.len(), |i: int| item_for(i, items[i].value));
    assert forall|i: int| #![trigger items[i]] 0 <= i < 5 implies spelled::spells(
        health_shape().fields[i].1,
        items[i].value,
        helds[i],
    ) by {
        readable_item_is_held(i, items[i].value);
    }
    spelled::long_list_is_told(before, items, after, health_shape(), helds);
}

/// An object without members is the report in which every field has its default.
pub proof fn empty_object_is_plain(before: Seq<u8>, inner: Seq<u8>, after: Seq<u8>)
    requires
        spelled::blank(before),
        spelled::blank(inner),
        json::object_fault(before + (seq![0x7bu8] + (inner + (seq![0x7du8] + after)))) is None,
    ensures
        read_bytes(before + (seq![0x7bu8] + (inner + (seq![0x7du8] + after)))) matches Ok(h)
            && h.status.len() == 0 && h.model.len() == 0 && !h.model_loaded && h.uptime_secs == 0
            && h.protocol_version == 0,
{
    spelled::empty_object_is_read(before, inner, after, health_shape());
}

/// A report that breaks off where a name should stand is told in the words of `serde_json`, if
/// the members before can be read.
pub proof fn broken_text_is_told(
    before: Seq<u8>,
    inner: Seq<u8>,
    ms: Seq<Spelled>,
    junk: Seq<u8>,
    fault: Seq<char>,
)
    requires
        spelled::blank(before),
        spelled::blank(inner),
        all_readable(ms),
        ms.len() > 0 ==> ms[0].lead.len() == 0,
        json::json_span(junk) is None,
        junk.len() > 0 && !spelled::is_blank(junk[0]) && junk[0] != 0x7d,
        json::object_fault(before + (seq![0x7bu8] + (inner + spelled::comma_bytes(ms, junk))))
            == Some(fault),
    ensures
        read_bytes(before + (seq![0x7bu8] + (inner + spelled::comma_bytes(ms, junk)))) == Err::<
            HealthView,
            Seq<char>,
        >(fault),
{
    readable_is_fit(ms);
    spelled::broken_object_is_told(before, inner, ms, junk, health_shape(), helds_of(ms));
}

/// Whether the field at that place cannot hold what the bytes open with, for that reason.
pub open spec fn refused_item(i: int, bytes: Seq<u8>, message: Seq<char>) -> bool {
    ||| i == 0 && json::text_read(bytes) == Err::<Seq<char>, Seq<char>>(message)
    ||| i == 1 && json::text_read(bytes) == Err::<Seq<char>, Seq<char>>(message)
    ||| i == 2 && json::flag_read(bytes) == Err::<bool, Seq<char>>(message)
    ||| i == 3 && json::long_read(bytes) == Err::<u64, Seq<char>>(message)
    ||| i == 4 && json::word_read(bytes) == Err::<u32, Seq<char>>(message)
}

/// An item that its field cannot hold is told in the words for its value at its place, whatever
/// stands behind it.
pub proof fn misread_item_is_told(
    before: Seq<u8>,
    items: Seq<Item>,
    after: Seq<u8>,
    j: int,
    copy: Seq<u8>,
    message: Seq<char>,
)
    requires
        spelled::blank(before),
        0 <= j < items.len(),
        forall|i: int| 0 <= i < items.len() ==> spelled::well_spelled_item(#[trigger] items[i]),
        forall|i: int|
            #![trigger items[i]]
            0 <= i < j ==> readable_item(i, items[i].value),
        spelled::is_blanked(
            copy,
            spelled::list_bytes(before, items, after),
            spelled::value_at(before, items, j),
        ),
        refused_item(j, copy, message),
    ensures
        read_bytes(spelled::list_bytes(before, items, after))
            == Err::<HealthView, Seq<char>>(message),
{
    let helds = Seq::new(items.len(), |i: int| item_for(i, items[i].value));
    assert forall|i: int| #![trigger items[i]] 0 <= i < j implies spelled::spells(
        health_shape().fields[i].1,
        items[i].value,
        helds[i],
    ) by {
        readable_item_is_held(i, items[i].value);
    }
    spelled::misread_item_is_told(before, items, after, health_shape(), helds, j, copy, message);
}

/// Where something else is wrong with an array as a whole, such as more text behind it, that is
/// told.
pub proof fn faulty_list_is_told(
    before: Seq<u8>,
    items: Seq<Item>,
    after: Seq<u8>,
    message: Seq<char>,
)
    requires
        spelled::blank(before),
        1 <= items.len() <= 5,
        forall|i: int|
            #![trigger items[i]]
            0 <= i < items.len() ==> spelled::well_spelled_item(items[i]) && readable_item(
                i,
                items[i].value,
            ),
        json::list_fault(spelled::list_bytes(before, items, after)) == Some(message),
    ensures
        read_bytes(spelled::list_bytes(before, items, after))
            == Err::<HealthView, Seq<char>>(message),
{
    let helds = Seq::new(items.len(), |i: int| item_for(i, items[i].value));
    assert forall|i: int| #![trigger items[i]] 0 <= i < items.len() implies spelled::spells(
        health_shape().fields[i].1,
        items[i].value,
        helds[i],
    ) by {
        readable_item_is_held(i, items[i].value);
    }
    let slots = spelled::list_is_read(before, items, after, health_shape(), helds);
}

/// An array without items is the report in which every field has its default.
pub proof fn empty_list_is_plain(before: Seq<u8>, inner: Seq<u8>, after: Seq<u8>)
    requires
        spelled::blank(before),
        spelled::blank(inner),
        json::list_fault(before + (seq![0x5bu8] + (inner + (seq![0x5du8] + after)))) is None,
    ensures
        read_bytes(before + (seq![0x5bu8] + (inner + (seq![0x5du8] + after)))) matches Ok(h)
            && h.status.len() == 0 && h.model.len() == 0 && !h.model_loaded && h.uptime_secs == 0
            && h.protocol_version == 0,
{
    spelled::empty_list_is_read(before, inner, after, health_shape());
}

/// Where something else is wrong with an object without members, that is told.
pub proof fn faulty_empty_object_is_told(
    before: Seq<u8>,
    inner: Seq<u8>,
    after: Seq<u8>,
    message: Seq<char>,
)
    requires
        spelled::blank(before),
        spelled::blank(inner),
        json::object_fault(before + (seq![0x7bu8] + (inner + (seq![0x7du8] + after)))) == Some(
            message,
        ),
    ensures
        read_bytes(before + (seq![0x7bu8] + (inner + (seq![0x7du8] + after)))) == Err::<
            HealthView,
            Seq<char>,
        >(message),
{
    spelled::empty_object_is_read(before, inner, after, health_shape());
}

/// A report that is accepted is JSON as a whole: `serde_json` takes it for an object or for an
/// array.
pub proof fn accepted_reports_are_json(bytes: Seq<u8>)
    ensures
        read_bytes(bytes) is Ok ==> json::object_fault(bytes) is None || json::list_fault(bytes)
            is None,
{
}

} // verus!
