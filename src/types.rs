use vstd::prelude::*;

use crate::text::{decimal, owned, push_decimal, str_eq};

verus! {

/// The type tags of host values.
pub struct ValueTag;

#[allow(non_upper_case_globals)]
impl ValueTag {
    pub const Null: u8 = 0x00;
    pub const Turf: u8 = 0x01;
    pub const Obj: u8 = 0x02;
    pub const Mob: u8 = 0x03;
    pub const Area: u8 = 0x04;
    pub const Client: u8 = 0x05;
    pub const String: u8 = 0x06;
    pub const MobTypepath: u8 = 0x08;
    pub const ObjTypepath: u8 = 0x09;
    pub const TurfTypepath: u8 = 0x0A;
    pub const AreaTypepath: u8 = 0x0B;
    pub const Resource: u8 = 0x0C;
    pub const Image: u8 = 0x0D;
    pub const World: u8 = 0x0E;
    pub const List: u8 = 0x0F;
    pub const ArgList: u8 = 0x10;
    pub const MobContents: u8 = 0x17;
    pub const TurfContents: u8 = 0x18;
    pub const AreaContents: u8 = 0x19;
    pub const WorldContents: u8 = 0x1A;
    pub const ObjContents: u8 = 0x1C;
    pub const DatumTypepath: u8 = 0x20;
    pub const ProcRef: u8 = 0x26;
    pub const File: u8 = 0x27;
    pub const MobVars: u8 = 0x2C;
    pub const ObjVars: u8 = 0x2D;
    pub const TurfVars: u8 = 0x2E;
    pub const AreaVars: u8 = 0x2F;
    pub const ClientVars: u8 = 0x30;
    pub const Vars: u8 = 0x31;
    pub const MobOverlays: u8 = 0x32;
    pub const MobUnderlays: u8 = 0x33;
    pub const ObjOverlays: u8 = 0x34;
    pub const ObjUnderlays: u8 = 0x35;
    pub const TurfOverlays: u8 = 0x36;
    pub const TurfUnderlays: u8 = 0x37;
    pub const AreaOverlays: u8 = 0x38;
    pub const AreaUnderlays: u8 = 0x39;
    pub const ImageOverlays: u8 = 0x40;
    pub const ImageUnderlays: u8 = 0x41;
    pub const ImageVars: u8 = 0x42;
    pub const BinaryObject: u8 = 0x45;
    pub const TurfVisContents: u8 = 0x4B;
    pub const ObjVisContents: u8 = 0x4C;
    pub const MobVisContents: u8 = 0x4D;
    pub const TurfVisLocs: u8 = 0x4E;
    pub const ObjVisLocs: u8 = 0x4F;
    pub const MobVisLocs: u8 = 0x50;
    pub const WorldVars: u8 = 0x51;
    pub const GlobalVars: u8 = 0x52;
    pub const Filters: u8 = 0x53;
    pub const ImageVisContents: u8 = 0x54;
    pub const Datum: u8 = 0x21;
    pub const SaveFile: u8 = 0x23;
    pub const Number: u8 = 0x2A;
    pub const Appearance: u8 = 0x3A;
    pub const Pointer: u8 = 0x3C;
}

/// The name of a type tag as the host writes it in messages.
pub open spec fn tag_name(t: u8) -> Seq<char> {
    if t == ValueTag::Null { "null"@ }
    else if t == ValueTag::Turf { "turf"@ }
    else if t == ValueTag::Obj { "obj"@ }
    else if t == ValueTag::Mob { "mob"@ }
    else if t == ValueTag::Area { "area"@ }
    else if t == ValueTag::Client { "client"@ }
    else if t == ValueTag::String { "string"@ }
    else if t == ValueTag::MobTypepath { "mob typepath"@ }
    else if t == ValueTag::ObjTypepath { "obj typepath"@ }
    else if t == ValueTag::TurfTypepath { "turf typepath"@ }
    else if t == ValueTag::AreaTypepath { "area typepath"@ }
    else if t == ValueTag::Resource { "resource"@ }
    else if t == ValueTag::Image { "image"@ }
    else if t == ValueTag::World { "world"@ }
    else if t == ValueTag::List { "list"@ }
    else if t == ValueTag::ArgList { "arg list"@ }
    else if t == ValueTag::MobContents { "mob contents"@ }
    else if t == ValueTag::TurfContents { "turf contents"@ }
    else if t == ValueTag::AreaContents { "area contents"@ }
    else if t == ValueTag::WorldContents { "world contents"@ }
    else if t == ValueTag::ObjContents { "obj contents"@ }
    else if t == ValueTag::DatumTypepath { "datum typepath"@ }
    else if t == ValueTag::ProcRef { "proc reference"@ }
    else if t == ValueTag::File { "file"@ }
    else if t == ValueTag::MobVars { "mob vars"@ }
    else if t == ValueTag::ObjVars { "obj vars"@ }
    else if t == ValueTag::TurfVars { "turf vars"@ }
    else if t == ValueTag::AreaVars { "area vars"@ }
    else if t == ValueTag::ClientVars { "client vars"@ }
    else if t == ValueTag::Vars { "vars"@ }
    else if t == ValueTag::MobOverlays { "mob overlays"@ }
    else if t == ValueTag::MobUnderlays { "mob underlays"@ }
    else if t == ValueTag::ObjOverlays { "obj overlays"@ }
    else if t == ValueTag::ObjUnderlays { "obj underlays"@ }
    else if t == ValueTag::TurfOverlays { "turf overlays"@ }
    else if t == ValueTag::TurfUnderlays { "turf underlays"@ }
    else if t == ValueTag::AreaOverlays { "area overlays"@ }
    else if t == ValueTag::AreaUnderlays { "area underlays"@ }
    else if t == ValueTag::ImageOverlays { "image overlays"@ }
    else if t == ValueTag::ImageUnderlays { "image underlays"@ }
    else if t == ValueTag::ImageVars { "image vars"@ }
    else if t == ValueTag::BinaryObject { "binary object"@ }
    else if t == ValueTag::TurfVisContents { "turf vis_contents"@ }
    else if t == ValueTag::ObjVisContents { "obj vis_contents"@ }
    else if t == ValueTag::MobVisContents { "mob vis_contents"@ }
    else if t == ValueTag::TurfVisLocs { "turf vis_locs"@ }
    else if t == ValueTag::ObjVisLocs { "obj vis_locs"@ }
    else if t == ValueTag::MobVisLocs { "mob vis_locs"@ }
    else if t == ValueTag::WorldVars { "world vars"@ }
    else if t == ValueTag::GlobalVars { "global vars"@ }
    else if t == ValueTag::Filters { "filter(s)"@ }
    else if t == ValueTag::ImageVisContents { "image vis_contents"@ }
    else if t == ValueTag::Datum { "datum"@ }
    else if t == ValueTag::SaveFile { "savefile"@ }
    else if t == ValueTag::Number { "number"@ }
    else if t == ValueTag::Appearance { "appearance"@ }
    else if t == ValueTag::Pointer { "pointer"@ }
    else { "unknown ("@ + decimal(t as nat) + ")"@ }
}

/// Returns the name of a type tag; tags without a name read "unknown (<tag>)".
pub fn dm_type_name(t: u8) -> (r: String)
    ensures
        r@ == tag_name(t),
{
    if t == ValueTag::Null {
        owned("null")
    } else if t == ValueTag::Turf {
        owned("turf")
    } else if t == ValueTag::Obj {
        owned("obj")
    } else if t == ValueTag::Mob {
        owned("mob")
    } else if t == ValueTag::Area {
        owned("area")
    } else if t == ValueTag::Client {
        owned("client")
    } else if t == ValueTag::String {
        owned("string")
    } else if t == ValueTag::MobTypepath {
        owned("mob typepath")
    } else if t == ValueTag::ObjTypepath {
        owned("obj typepath")
    } else if t == ValueTag::TurfTypepath {
        owned("turf typepath")
    } else if t == ValueTag::AreaTypepath {
        owned("area typepath")
    } else if t == ValueTag::Resource {
        owned("resource")
    } else if t == ValueTag::Image {
        owned("image")
    } else if t == ValueTag::World {
        owned("world")
    } else if t == ValueTag::List {
        owned("list")
    } else if t == ValueTag::ArgList {
        owned("arg list")
    } else if t == ValueTag::MobContents {
        owned("mob contents")
    } else if t == ValueTag::TurfContents {
        owned("turf contents")
    } else if t == ValueTag::AreaContents {
        owned("area contents")
    } else if t == ValueTag::WorldContents {
        owned("world contents")
    } else if t == ValueTag::ObjContents {
        owned("obj contents")
    } else if t == ValueTag::DatumTypepath {
        owned("datum typepath")
    } else if t == ValueTag::ProcRef {
        owned("proc reference")
    } else if t == ValueTag::File {
        owned("file")
    } else if t == ValueTag::MobVars {
        owned("mob vars")
    } else if t == ValueTag::ObjVars {
        owned("obj vars")
    } else if t == ValueTag::TurfVars {
        owned("turf vars")
    } else if t == ValueTag::AreaVars {
        owned("area vars")
    } else if t == ValueTag::ClientVars {
        owned("client vars")
    } else if t == ValueTag::Vars {
        owned("vars")
    } else if t == ValueTag::MobOverlays {
        owned("mob overlays")
    } else if t == ValueTag::MobUnderlays {
        owned("mob underlays")
    } else if t == ValueTag::ObjOverlays {
        owned("obj overlays")
    } else if t == ValueTag::ObjUnderlays {
        owned("obj underlays")
    } else if t == ValueTag::TurfOverlays {
        owned("turf overlays")
    } else if t == ValueTag::TurfUnderlays {
        owned("turf underlays")
    } else if t == ValueTag::AreaOverlays {
        owned("area overlays")
    } else if t == ValueTag::AreaUnderlays {
        owned("area underlays")
    } else if t == ValueTag::ImageOverlays {
        owned("image overlays")
    } else if t == ValueTag::ImageUnderlays {
        owned("image underlays")
    } else if t == ValueTag::ImageVars {
        owned("image vars")
    } else if t == ValueTag::BinaryObject {
        owned("binary object")
    } else if t == ValueTag::TurfVisContents {
        owned("turf vis_contents")
    } else if t == ValueTag::ObjVisContents {
        owned("obj vis_contents")
    } else if t == ValueTag::MobVisContents {
        owned("mob vis_contents")
    } else if t == ValueTag::TurfVisLocs {
        owned("turf vis_locs")
    } else if t == ValueTag::ObjVisLocs {
        owned("obj vis_locs")
    } else if t == ValueTag::MobVisLocs {
        owned("mob vis_locs")
    } else if t == ValueTag::WorldVars {
        owned("world vars")
    } else if t == ValueTag::GlobalVars {
        owned("global vars")
    } else if t == ValueTag::Filters {
        owned("filter(s)")
    } else if t == ValueTag::ImageVisContents {
        owned("image vis_contents")
    } else if t == ValueTag::Datum {
        owned("datum")
    } else if t == ValueTag::SaveFile {
        owned("savefile")
    } else if t == ValueTag::Number {
        owned("number")
    } else if t == ValueTag::Appearance {
        owned("appearance")
    } else if t == ValueTag::Pointer {
        owned("pointer")
    } else {
        let mut s = owned("unknown (");
        push_decimal(&mut s, t as u64);
        s.append(")");
        s
    }
}

/// Tags of lists of contents.
pub open spec fn is_contents_tag(t: u8) -> bool {
    t == ValueTag::MobContents ||
        t == ValueTag::TurfContents ||
        t == ValueTag::AreaContents ||
        t == ValueTag::WorldContents ||
        t == ValueTag::ObjContents
}

/// Tags of lists of vars.
pub open spec fn is_vars_tag(t: u8) -> bool {
    t == ValueTag::MobVars ||
        t == ValueTag::ObjVars ||
        t == ValueTag::TurfVars ||
        t == ValueTag::AreaVars ||
        t == ValueTag::ClientVars ||
        t == ValueTag::Vars ||
        t == ValueTag::ImageVars ||
        t == ValueTag::WorldVars ||
        t == ValueTag::GlobalVars
}

/// Tags of lists of static appearances.
pub open spec fn is_appearance_list_tag(t: u8) -> bool {
    t == ValueTag::MobOverlays ||
        t == ValueTag::MobUnderlays ||
        t == ValueTag::ObjOverlays ||
        t == ValueTag::ObjUnderlays ||
        t == ValueTag::TurfOverlays ||
        t == ValueTag::TurfUnderlays ||
        t == ValueTag::AreaOverlays ||
        t == ValueTag::AreaUnderlays ||
        t == ValueTag::ImageOverlays ||
        t == ValueTag::ImageUnderlays
}

/// Tags of lists of vis_contents.
pub open spec fn is_vis_contents_tag(t: u8) -> bool {
    t == ValueTag::TurfVisContents ||
        t == ValueTag::ObjVisContents ||
        t == ValueTag::MobVisContents ||
        t == ValueTag::ImageVisContents
}

/// Tags of lists of vis_locs.
pub open spec fn is_vis_locs_tag(t: u8) -> bool {
    t == ValueTag::TurfVisLocs ||
        t == ValueTag::ObjVisLocs ||
        t == ValueTag::MobVisLocs
}

/// Tags of datums.
pub open spec fn is_datum_tag(t: u8) -> bool {
    t == ValueTag::Turf ||
        t == ValueTag::Obj ||
        t == ValueTag::Mob ||
        t == ValueTag::Area ||
        t == ValueTag::Image ||
        t == ValueTag::Datum
}

/// Tags of every kind of list.
pub open spec fn is_list_tag(t: u8) -> bool {
    is_contents_tag(t) || is_vars_tag(t) || is_appearance_list_tag(t) || is_vis_contents_tag(t)
        || is_vis_locs_tag(t) || t == ValueTag::List || t == ValueTag::ArgList
}

/// Tags of values that can be indexed by arbitrary strings.
pub open spec fn is_string_indexable_tag(t: u8) -> bool {
    is_vars_tag(t) || is_datum_tag(t) || t == ValueTag::Client || t == ValueTag::List
        || t == ValueTag::ArgList || t == ValueTag::Appearance || t == ValueTag::World
}

/// Tags of values that have procs that can be called.
pub open spec fn is_proc_having_tag(t: u8) -> bool {
    is_list_tag(t) || is_datum_tag(t) || t == ValueTag::Client
}

/// Tags of values whose procs can be defined by the user.
pub open spec fn is_proc_definable_tag(t: u8) -> bool {
    is_datum_tag(t) || t == ValueTag::Client
}

/// Tags of values that can be indexed in some way.
pub open spec fn is_indexable_tag(t: u8) -> bool {
    is_proc_having_tag(t) || t == ValueTag::Appearance || t == ValueTag::World
}

/// Whether a tag is one of a list of contents.
pub fn contents_type(t: u8) -> (r: bool)
    ensures
        r == is_contents_tag(t),
{
    t == ValueTag::MobContents ||
        t == ValueTag::TurfContents ||
        t == ValueTag::AreaContents ||
        t == ValueTag::WorldContents ||
        t == ValueTag::ObjContents
}

/// Whether a tag is one of a list of vars.
pub fn vars_type(t: u8) -> (r: bool)
    ensures
        r == is_vars_tag(t),
{
    t == ValueTag::MobVars ||
        t == ValueTag::ObjVars ||
        t == ValueTag::TurfVars ||
        t == ValueTag::AreaVars ||
        t == ValueTag::ClientVars ||
        t == ValueTag::Vars ||
        t == ValueTag::ImageVars ||
        t == ValueTag::WorldVars ||
        t == ValueTag::GlobalVars
}

/// Whether a tag is one of a list of appearances.
pub fn appearance_list_type(t: u8) -> (r: bool)
    ensures
        r == is_appearance_list_tag(t),
{
    t == ValueTag::MobOverlays ||
        t == ValueTag::MobUnderlays ||
        t == ValueTag::ObjOverlays ||
        t == ValueTag::ObjUnderlays ||
        t == ValueTag::TurfOverlays ||
        t == ValueTag::TurfUnderlays ||
        t == ValueTag::AreaOverlays ||
        t == ValueTag::AreaUnderlays ||
        t == ValueTag::ImageOverlays ||
        t == ValueTag::ImageUnderlays
}

/// Whether a tag is one of a vis_contents list.
pub fn vis_contents_type(t: u8) -> (r: bool)
    ensures
        r == is_vis_contents_tag(t),
{
    t == ValueTag::TurfVisContents ||
        t == ValueTag::ObjVisContents ||
        t == ValueTag::MobVisContents ||
        t == ValueTag::ImageVisContents
}

/// Whether a tag is one of a vis_locs list.
pub fn vis_locs_type(t: u8) -> (r: bool)
    ensures
        r == is_vis_locs_tag(t),
{
    t == ValueTag::TurfVisLocs ||
        t == ValueTag::ObjVisLocs ||
        t == ValueTag::MobVisLocs
}

/// Whether a tag is one of a datum.
pub fn datum_type(t: u8) -> (r: bool)
    ensures
        r == is_datum_tag(t),
{
    t == ValueTag::Turf ||
        t == ValueTag::Obj ||
        t == ValueTag::Mob ||
        t == ValueTag::Area ||
        t == ValueTag::Image ||
        t == ValueTag::Datum
}

/// Whether a tag is one of any list.
pub fn list_type(t: u8) -> (r: bool)
    ensures
        r == is_list_tag(t),
{
    contents_type(t) || vars_type(t) || appearance_list_type(t) || vis_contents_type(t)
        || vis_locs_type(t) || t == ValueTag::List || t == ValueTag::ArgList
}

/// Whether a tag is one of a value that can be indexed by arbitrary strings.
pub fn string_indexable_type(t: u8) -> (r: bool)
    ensures
        r == is_string_indexable_tag(t),
{
    vars_type(t) || datum_type(t) || t == ValueTag::Client || t == ValueTag::List
        || t == ValueTag::ArgList || t == ValueTag::Appearance || t == ValueTag::World
}

/// Whether a tag is one of a value with callable procs.
pub fn proc_having_type(t: u8) -> (r: bool)
    ensures
        r == is_proc_having_tag(t),
{
    list_type(t) || datum_type(t) || t == ValueTag::Client
}

/// Whether a tag is one of a value whose procs the user can define.
pub fn proc_definable_type(t: u8) -> (r: bool)
    ensures
        r == is_proc_definable_tag(t),
{
    datum_type(t) || t == ValueTag::Client
}

/// Whether a tag is one of a value that can be indexed in some way.
pub fn indexable_type(t: u8) -> (r: bool)
    ensures
        r == is_indexable_tag(t),
{
    proc_having_type(t) || t == ValueTag::Appearance || t == ValueTag::World
}

/// The vars of the world object that can be read.
pub open spec fn is_world_var_name(s: Seq<char>) -> bool {
    s == "address"@ ||
        s == "area"@ ||
        s == "byond_build"@ ||
        s == "byond_version"@ ||
        s == "cache_lifespan"@ ||
        s == "contents"@ ||
        s == "cpu"@ ||
        s == "executor"@ ||
        s == "fps"@ ||
        s == "game_state"@ ||
        s == "host"@ ||
        s == "hub"@ ||
        s == "hub_password"@ ||
        s == "icon_size"@ ||
        s == "internet_address"@ ||
        s == "log"@ ||
        s == "loop_checks"@ ||
        s == "map_format"@ ||
        s == "map_cpu"@ ||
        s == "maxx"@ ||
        s == "maxy"@ ||
        s == "maxz"@ ||
        s == "mob"@ ||
        s == "movement_mode"@ ||
        s == "name"@ ||
        s == "params"@ ||
        s == "port"@ ||
        s == "process"@ ||
        s == "realtime"@ ||
        s == "reachable"@ ||
        s == "sleep_offline"@ ||
        s == "status"@ ||
        s == "system_type"@ ||
        s == "tick_lag"@ ||
        s == "tick_usage"@ ||
        s == "time"@ ||
        s == "timeofday"@ ||
        s == "timezone"@ ||
        s == "turf"@ ||
        s == "url"@ ||
        s == "vars"@ ||
        s == "version"@ ||
        s == "view"@ ||
        s == "visibility"@
}

/// The vars of a savefile that can be read.
pub open spec fn is_savefile_var_name(s: Seq<char>) -> bool {
    s == "byond_build"@ ||
        s == "byond_version"@ ||
        s == "cd"@ ||
        s == "dir"@ ||
        s == "eof"@ ||
        s == "name"@
}

/// The procs that every kind of list has.
pub open spec fn is_list_proc_name(s: Seq<char>) -> bool {
    s == "Add"@ ||
        s == "Copy"@ ||
        s == "Cut"@ ||
        s == "Find"@ ||
        s == "Insert"@ ||
        s == "Join"@ ||
        s == "Remove"@ ||
        s == "RemoveAll"@ ||
        s == "Splice"@ ||
        s == "Swap"@
}

/// Whether a name is one of a readable var of the world object.
pub fn world_var_name(s: &str) -> (r: bool)
    ensures
        r == is_world_var_name(s@),
{
    str_eq(s, "address") ||
        str_eq(s, "area") ||
        str_eq(s, "byond_build") ||
        str_eq(s, "byond_version") ||
        str_eq(s, "cache_lifespan") ||
        str_eq(s, "contents") ||
        str_eq(s, "cpu") ||
        str_eq(s, "executor") ||
        str_eq(s, "fps") ||
        str_eq(s, "game_state") ||
        str_eq(s, "host") ||
        str_eq(s, "hub") ||
        str_eq(s, "hub_password") ||
        str_eq(s, "icon_size") ||
        str_eq(s, "internet_address") ||
        str_eq(s, "log") ||
        str_eq(s, "loop_checks") ||
        str_eq(s, "map_format") ||
        str_eq(s, "map_cpu") ||
        str_eq(s, "maxx") ||
        str_eq(s, "maxy") ||
        str_eq(s, "maxz") ||
        str_eq(s, "mob") ||
        str_eq(s, "movement_mode") ||
        str_eq(s, "name") ||
        str_eq(s, "params") ||
        str_eq(s, "port") ||
        str_eq(s, "process") ||
        str_eq(s, "realtime") ||
        str_eq(s, "reachable") ||
        str_eq(s, "sleep_offline") ||
        str_eq(s, "status") ||
        str_eq(s, "system_type") ||
        str_eq(s, "tick_lag") ||
        str_eq(s, "tick_usage") ||
        str_eq(s, "time") ||
        str_eq(s, "timeofday") ||
        str_eq(s, "timezone") ||
        str_eq(s, "turf") ||
        str_eq(s, "url") ||
        str_eq(s, "vars") ||
        str_eq(s, "version") ||
        str_eq(s, "view") ||
        str_eq(s, "visibility")
}

/// Whether a name is one of a readable var of a savefile.
pub fn savefile_var_name(s: &str) -> (r: bool)
    ensures
        r == is_savefile_var_name(s@),
{
    str_eq(s, "byond_build") ||
        str_eq(s, "byond_version") ||
        str_eq(s, "cd") ||
        str_eq(s, "dir") ||
        str_eq(s, "eof") ||
        str_eq(s, "name")
}

/// Whether a name is one of a proc of every list.
pub fn list_proc_name(s: &str) -> (r: bool)
    ensures
        r == is_list_proc_name(s@),
{
    str_eq(s, "Add") ||
        str_eq(s, "Copy") ||
        str_eq(s, "Cut") ||
        str_eq(s, "Find") ||
        str_eq(s, "Insert") ||
        str_eq(s, "Join") ||
        str_eq(s, "Remove") ||
        str_eq(s, "RemoveAll") ||
        str_eq(s, "Splice") ||
        str_eq(s, "Swap")
}

} // verus!
