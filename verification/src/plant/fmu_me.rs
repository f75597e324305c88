//! An FMI 2.0 Model Exchange FMU, as far as the kernel needs to know it.
//!
//! **The kernel never parses XML.** `modelDescription.xml` is read by the
//! session, which resolves every value reference and writes a flat manifest
//! next to the FMU. The real-time process reads a few hundred bytes of
//! `key=value` text at load, and the value references are resolved once by the
//! component that is allowed to be slow.

use std::collections::HashMap;

use vstd::prelude::*;
use vstd::utf8::*;

use crate::generated::frames;
use crate::generated::frames::{DriverInput, Frame, VehicleState};
use crate::plant::fmi2::ValueReference;
use crate::plant::{KernelCaps, PlantError};
use crate::scalar::{is_at_most, Scalar};
use crate::text;
use crate::text::{count_text, find, letters, past_prefix, read_unsigned, spell, spells, trim};

verus! {

broadcast use vstd::std_specs::hash::group_hash_axioms;

/// One millisecond, the largest step any model is trusted with unmeasured.
pub const BASELINE_DT: Scalar = 0x3f50_624d_d2f1_a9fc;

// --- where an FMU lives -------------------------------------------------------------

/// `resolve` may answer `r` for `path`.
pub open spec fn may_resolve<R: Fn(&str) -> String>(resolve: R, path: Seq<char>, r: Seq<char>) -> bool {
    exists|s: &str, answer: String| #[trigger]
        call_ensures(resolve, (s,), answer) && s@ == path && answer@ == r
}

/// `resolve` can be asked about any path. What it answers may change as the disk does.
pub open spec fn resolves<R: Fn(&str) -> String>(resolve: R) -> bool {
    forall|s: &str| #[trigger] call_requires(resolve, (s,))
}

/// `value` seen from `base`: itself when it is absolute.
pub open spec fn joined_path(base: Seq<char>, value: Seq<char>) -> Seq<char> {
    if (value.len() > 0 && value[0] == '/') || base.len() == 0 {
        value
    } else if base.last() == '/' {
        base + value
    } else {
        base.push('/') + value
    }
}

/// `value` is already a URI.
pub open spec fn has_scheme(value: Seq<char>) -> bool {
    exists|i: int|
        0 <= i <= value.len() - 3 && #[trigger] value[i] == ':' && value[i + 1] == '/' && value[i
            + 2] == '/'
}

/// A byte a URI may hold as it is.
pub open spec fn unreserved(b: u8) -> bool {
    ||| 'A' as u8 <= b <= 'Z' as u8
    ||| 'a' as u8 <= b <= 'z' as u8
    ||| '0' as u8 <= b <= '9' as u8
    ||| b == '-' as u8 || b == '.' as u8 || b == '_' as u8 || b == '~' as u8 || b == '/' as u8
}

pub open spec fn hex_digit(d: int) -> char {
    if d < 10 {
        (48 + d) as char
    } else {
        (55 + d) as char
    }
}

/// One byte of a URI: itself, or `%` and two capital hex digits.
pub open spec fn escaped_byte(b: u8) -> Seq<char> {
    if unreserved(b) {
        seq![b as char]
    } else {
        seq!['%', hex_digit(b as int / 16), hex_digit(b as int % 16)]
    }
}

pub open spec fn escaped(bytes: Seq<u8>) -> Seq<char>
    decreases bytes.len(),
{
    if bytes.len() == 0 {
        Seq::empty()
    } else {
        escaped(bytes.drop_last()) + escaped_byte(bytes.last())
    }
}

/// The URI of an absolute path.
pub open spec fn file_uri_of(absolute: Seq<char>) -> Seq<char> {
    "file://"@ + escaped(encode_utf8(absolute))
}

/// `uri` is the resources URI for a manifest value: a URI as it stands, and of a path
/// the URI of what `resolve` answered for it.
pub open spec fn may_be_uri<R: Fn(&str) -> String>(
    value: Seq<char>,
    base: Seq<char>,
    resolve: R,
    uri: Seq<char>,
) -> bool {
    if has_scheme(value) {
        uri == value
    } else {
        exists|absolute: Seq<char>| #[trigger]
            may_resolve(resolve, joined_path(base, value), absolute) && uri == file_uri_of(absolute)
    }
}

pub fn join_path(base: &str, value: &str) -> (path: String)
    ensures
        path@ == joined_path(base@, value@),
{
    let base_len: usize = base.unicode_len();
    if value.unicode_len() > 0 && value.get_char(0) == '/' {
        return value.to_owned();
    }
    if base_len == 0 {
        return value.to_owned();
    }
    let mut path: String = base.to_owned();
    if base.get_char(base_len - 1) != '/' {
        path.push('/');
    }
    path.append(value);
    path
}

fn contains_scheme(chars: &Vec<char>) -> (answer: bool)
    ensures
        answer == has_scheme(chars@),
{
    let mut i: usize = 0;
    while i < chars.len() && chars.len() - i >= 3
        invariant
            i <= chars@.len(),
            forall|j: int|
                0 <= j < i && j <= chars@.len() - 3 ==> !(#[trigger] chars@[j] == ':' && chars@[j
                    + 1] == '/' && chars@[j + 2] == '/'),
        decreases chars@.len() - i,
    {
        if chars[i] == ':' && chars[i + 1] == '/' && chars[i + 2] == '/' {
            assert(chars@[i as int] == ':');
            return true;
        }
        i += 1;
    }
    false
}

fn is_unreserved(b: u8) -> (answer: bool)
    ensures
        answer == unreserved(b),
{
    let c: char = b as char;
    ('A' <= c && c <= 'Z') || ('a' <= c && c <= 'z') || ('0' <= c && c <= '9') || c == '-' || c
        == '.' || c == '_' || c == '~' || c == '/'
}

fn hex_char(d: u8) -> (c: char)
    requires
        d < 16,
    ensures
        c == hex_digit(d as int),
{
    if d < 10 {
        (48 + d) as char
    } else {
        (55 + d) as char
    }
}

/// Build the `fmi2Instantiate` resources URI from a manifest value.
///
/// The session writes a path relative to the FMU directory, which is what keeps
/// a cache entry usable after it moves. A value that is already a URI is passed
/// through.
///
/// `file://` requires an absolute path: given a relative one, everything up to
/// the first slash is parsed as the *authority*. Percent-encoding is not
/// decoration either: a directory with a space in its name yields a URI that an
/// FMU is entitled to reject.
pub fn resource_uri<R: Fn(&str) -> String>(value: &str, base: &str, resolve: &R) -> (uri: String)
    requires
        resolves(*resolve),
    ensures
        may_be_uri(value@, base@, *resolve, uri@),
{
    let chars: Vec<char> = letters(value);
    if contains_scheme(&chars) {
        return value.to_owned();
    }
    let joined: String = join_path(base, value);
    let absolute: String = resolve(joined.as_str());
    assert(may_resolve(*resolve, joined@, absolute@));
    file_uri(absolute.as_str())
}

/// The URI of an absolute path, percent-encoded.
pub fn file_uri(absolute: &str) -> (uri: String)
    ensures
        uri@ == file_uri_of(absolute@),
{
    let bytes: &[u8] = absolute.as_bytes();
    let ghost all = encode_utf8(absolute@);
    let mut uri: String = "file://".to_owned();
    let mut i: usize = 0;
    assert(bytes@.take(0) =~= Seq::<u8>::empty());
    assert("file://"@ + escaped(bytes@.take(0)) =~= "file://"@);
    while i < bytes.len()
        invariant
            i <= bytes@.len(),
            bytes@ == all,
            uri@ == "file://"@ + escaped(bytes@.take(i as int)),
        decreases bytes@.len() - i,
    {
        let b: u8 = bytes[i];
        if is_unreserved(b) {
            uri.push(b as char);
        } else {
            uri.push('%');
            uri.push(hex_char(b / 16));
            uri.push(hex_char(b % 16));
        }
        proof {
            let next = bytes@.take(i + 1);
            assert(next.drop_last() =~= bytes@.take(i as int));
            assert(uri@ =~= "file://"@ + escaped(next));
        }
        i += 1;
    }
    assert(bytes@.take(i as int) =~= bytes@);
    uri
}

/// A character a URI is made of: an unreserved one, or `%`.
pub open spec fn uri_char(c: char) -> bool {
    c == '%' || ((c as u32) < 128 && unreserved(c as u8))
}

/// Whatever a directory is called, the URI made of its path holds nothing that an
/// FMU would be entitled to reject.
pub proof fn law_a_uri_is_plain(bytes: Seq<u8>, i: int)
    requires
        0 <= i < escaped(bytes).len(),
    ensures
        uri_char(escaped(bytes)[i]),
    decreases bytes.len(),
{
    if bytes.len() > 0 {
        let before = escaped(bytes.drop_last());
        let last = escaped_byte(bytes.last());
        if i < before.len() {
            law_a_uri_is_plain(bytes.drop_last(), i);
        } else {
            let b = bytes.last();
            assert(escaped(bytes)[i] == last[i - before.len()]);
            if !unreserved(b) {
                let high = hex_digit(b as int / 16);
                let low = hex_digit(b as int % 16);
                assert(uri_char(high));
                assert(uri_char(low));
            } else {
                assert(b < 128);
                assert(uri_char(b as char));
            }
        }
    }
}

// --- the manifest -------------------------------------------------------------------

/// Everything the session resolved from `modelDescription.xml`.
#[derive(Clone, Debug)]
pub struct PlantManifest {
    pub model_identifier: String,
    pub guid: String,
    /// Path to the platform binary.
    pub library: String,
    /// `resources` directory URI, passed to `fmi2Instantiate`.
    pub resource_uri: String,
    pub continuous_states: usize,
    pub event_indicators: usize,
    /// Signal name and FMI value reference, for both inputs and outputs, in the
    /// order they were read. A later entry replaces an earlier one.
    pub value_references: Vec<(String, ValueReference)>,
    /// Tunable id -> FMI value reference.
    pub tunables: HashMap<u32, ValueReference>,
    /// Hash of the vehicle this FMU was built from, recorded into telemetry.
    pub vehicle_hash: u64,
}

/// What a manifest says.
pub struct Manifest {
    pub model_identifier: Seq<char>,
    pub guid: Seq<char>,
    pub library: Seq<char>,
    /// The last `resources` value, as it was written.
    pub resources: Option<Seq<char>>,
    pub continuous_states: usize,
    pub event_indicators: usize,
    pub value_references: Map<Seq<char>, ValueReference>,
    pub tunables: Map<u32, ValueReference>,
    pub vehicle_hash: u64,
}

/// A list of entries as a map: a later entry replaces an earlier one.
pub open spec fn as_map(entries: Seq<(String, ValueReference)>) -> Map<Seq<char>, ValueReference>
    decreases entries.len(),
{
    if entries.len() == 0 {
        Map::empty()
    } else {
        as_map(entries.drop_last()).insert(entries.last().0@, entries.last().1)
    }
}

/// `s` with every leading `0x` taken off.
pub open spec fn unprefixed(s: Seq<char>) -> Seq<char>
    decreases s.len(),
{
    if s.len() >= 2 && s[0] == '0' && s[1] == 'x' {
        unprefixed(s.skip(2))
    } else {
        s
    }
}

impl Manifest {
    pub open spec fn blank() -> Self {
        Manifest {
            model_identifier: Seq::empty(),
            guid: Seq::empty(),
            library: Seq::empty(),
            resources: None,
            continuous_states: 0,
            event_indicators: 0,
            value_references: Map::empty(),
            tunables: Map::empty(),
            vehicle_hash: 0,
        }
    }

    /// One `key=value` entry taken in, or what is wrong with it. A key nobody
    /// knows is passed over.
    pub open spec fn with_entry(
        self,
        key: Seq<char>,
        value: Seq<char>,
        base: Seq<char>,
    ) -> Result<Self, Seq<char>> {
        if key == "model_identifier"@ {
            Ok(Manifest { model_identifier: value, ..self })
        } else if key == "guid"@ {
            Ok(Manifest { guid: value, ..self })
        } else if key == "library"@ {
            Ok(Manifest { library: joined_path(base, value), ..self })
        } else if key == "resources"@ {
            Ok(Manifest { resources: Some(value), ..self })
        } else if key == "states"@ {
            match text::unsigned(value, 10, usize::MAX as int) {
                Some(n) => Ok(Manifest { continuous_states: n as usize, ..self }),
                None => Err("bad states: "@ + value),
            }
        } else if key == "event_indicators"@ {
            match text::unsigned(value, 10, usize::MAX as int) {
                Some(n) => Ok(Manifest { event_indicators: n as usize, ..self }),
                None => Err("bad event_indicators: "@ + value),
            }
        } else if key == "vehicle_hash"@ {
            match text::unsigned(unprefixed(value), 16, u64::MAX as int) {
                Some(n) => Ok(Manifest { vehicle_hash: n as u64, ..self }),
                None => Err("bad vehicle_hash: "@ + value),
            }
        } else if text::begins(key, "vref:"@) {
            let name = key.skip("vref:"@.len() as int);
            match text::unsigned(value, 10, u32::MAX as int) {
                Some(n) => Ok(
                    Manifest {
                        value_references: self.value_references.insert(name, n as u32),
                        ..self
                    },
                ),
                None => Err("bad value reference for "@ + name + ": "@ + value),
            }
        } else if text::begins(key, "tunable:"@) {
            let id = key.skip("tunable:"@.len() as int);
            match (text::unsigned(id, 10, u32::MAX as int), text::unsigned(value, 10, u32::MAX as int)) {
                (Some(i), Some(n)) => Ok(
                    Manifest { tunables: self.tunables.insert(i as u32, n as u32), ..self },
                ),
                (None, _) => Err("bad tunable id: "@ + id),
                (_, None) => Err("bad tunable reference: "@ + value),
            }
        } else {
            Ok(self)
        }
    }

    /// One line taken in. Blank lines and `#` comments are passed over.
    pub open spec fn with_line(
        self,
        line: Seq<char>,
        number: nat,
        base: Seq<char>,
    ) -> Result<Self, Seq<char>> {
        let at = text::position(line, '=');
        if line.len() == 0 || line[0] == '#' {
            Ok(self)
        } else if at >= line.len() {
            Err("manifest line "@ + text::decimal(number) + ": expected key=value"@)
        } else {
            self.with_entry(
                text::trimmed(line.take(at)),
                text::trimmed(line.skip(at + 1)),
                base,
            )
        }
    }

    /// All the lines of `rest` taken in, the first of them numbered `number`.
    pub open spec fn with_lines(
        self,
        rest: Seq<char>,
        number: nat,
        base: Seq<char>,
    ) -> Result<Self, Seq<char>>
        decreases rest.len(),
    {
        if rest.len() == 0 {
            Ok(self)
        } else {
            let end = text::position(rest, '\n');
            match self.with_line(text::trimmed(rest.take(end)), number, base) {
                Err(problem) => Err(problem),
                Ok(next) => if 0 <= end < rest.len() {
                    next.with_lines(rest.skip(end + 1), number + 1, base)
                } else {
                    Ok(next)
                },
            }
        }
    }

    /// What a manifest holds, or why it is not one.
    pub open spec fn parsed(
        text: Seq<char>,
        base: Seq<char>,
    ) -> Result<Self, Seq<char>> {
        match Self::blank().with_lines(text, 1, base) {
            Err(problem) => Err(problem),
            Ok(manifest) => if manifest.model_identifier.len() == 0 {
                Err("manifest has no model_identifier"@)
            } else if manifest.continuous_states == 0 {
                Err(
                    "manifest reports zero continuous states; an FMU with no states cannot be a vehicle"@,
                )
            } else {
                Ok(manifest)
            },
        }
    }
}

/// A line that says nothing: blank, or a comment.
pub open spec fn says_nothing(line: Seq<char>) -> bool {
    let bare = text::trimmed(line);
    bare.len() == 0 || bare[0] == '#'
}

/// Blank lines and comments change nothing: the lines after one come to what they
/// would have come to without it, but for the number of the line in a complaint.
pub proof fn law_blank_lines_and_comments_change_nothing(
    manifest: Manifest,
    line: Seq<char>,
    rest: Seq<char>,
    number: nat,
    base: Seq<char>,
)
    requires
        says_nothing(line),
        !line.contains('\n'),
    ensures
        manifest.with_lines(line + seq!['\n'] + rest, number, base)
            == manifest.with_lines(rest, number + 1, base),
        manifest.with_lines(line, number, base) == Ok::<Manifest, Seq<char>>(manifest),
        manifest.with_lines(rest, number + 1, base) matches Ok(found) ==> manifest.with_lines(
            rest,
            number,
            base,
        ) == Ok::<Manifest, Seq<char>>(found),
{
    let all = line + seq!['\n'] + rest;
    assert(forall|i: int| 0 <= i < line.len() ==> line.contains(#[trigger] line[i]));
    text::lemma_position(all, '\n', line.len() as int);
    text::lemma_position(line, '\n', line.len() as int);
    let end = line.len() as int;
    assert(all.take(end) =~= line);
    assert(all.skip(end + 1) =~= rest);
    assert(line.take(text::position(line, '\n')) =~= line);
    lemma_numbers_do_not_matter(manifest, rest, number + 1, number, base);
}

/// Which number the first line has makes no difference to what is found.
proof fn lemma_numbers_do_not_matter(
    manifest: Manifest,
    rest: Seq<char>,
    number: nat,
    other: nat,
    base: Seq<char>,
)
    ensures
        manifest.with_lines(rest, number, base) matches Ok(found) ==> manifest.with_lines(
            rest,
            other,
            base,
        ) == Ok::<Manifest, Seq<char>>(found),
    decreases rest.len(),
{
    if rest.len() > 0 {
        let end = text::position(rest, '\n');
        match manifest.with_line(text::trimmed(rest.take(end)), number, base) {
            Err(_) => {},
            Ok(next) => if 0 <= end < rest.len() {
                lemma_numbers_do_not_matter(
                    next,
                    rest.skip(end + 1),
                    number + 1,
                    other + 1,
                    base,
                    );
            },
        }
    }
}

/// `problem` followed by the text of `chars[from..to]`.
fn complaint(problem: &str, chars: &Vec<char>, from: usize, to: usize) -> (message: String)
    requires
        from <= to <= chars@.len(),
    ensures
        message@ == problem@ + chars@.subrange(from as int, to as int),
{
    let mut message: String = problem.to_owned();
    message.append(spell(chars, from, to).as_str());
    message
}

impl PlantManifest {
    /// The references by name.
    pub open spec fn references(self) -> Map<Seq<char>, ValueReference> {
        as_map(self.value_references@)
    }

    /// Everything but the resources is as `written`.
    pub open spec fn agrees(self, written: Manifest) -> bool {
        &&& self.model_identifier@ == written.model_identifier
        &&& self.guid@ == written.guid
        &&& self.library@ == written.library
        &&& self.continuous_states == written.continuous_states
        &&& self.event_indicators == written.event_indicators
        &&& self.references() == written.value_references
        &&& self.tunables@ == written.tunables
        &&& self.vehicle_hash == written.vehicle_hash
    }

    /// The manifest is as `written`, its resources found from `base` by `resolve`.
    pub open spec fn holds<R: Fn(&str) -> String>(
        self,
        written: Manifest,
        base: Seq<char>,
        resolve: R,
    ) -> bool {
        &&& self.agrees(written)
        &&& match written.resources {
            Some(value) => may_be_uri(value, base, resolve, self.resource_uri@),
            None => self.resource_uri@ == Seq::<char>::empty(),
        }
    }

    /// A manifest with nothing in it.
    pub fn blank() -> (manifest: Self)
        ensures
            manifest.agrees(Manifest::blank()),
            manifest.resource_uri@ == Seq::<char>::empty(),
    {
        let manifest: PlantManifest = PlantManifest {
            model_identifier: String::new(),
            guid: String::new(),
            library: String::new(),
            resource_uri: String::new(),
            continuous_states: 0,
            event_indicators: 0,
            value_references: Vec::new(),
            tunables: HashMap::new(),
            vehicle_hash: 0,
        };
        assert(manifest.model_identifier@ =~= Seq::<char>::empty());
        assert(manifest.guid@ =~= Seq::<char>::empty());
        assert(manifest.library@ =~= Seq::<char>::empty());
        assert(manifest.resource_uri@ =~= Seq::<char>::empty());
        assert(manifest.tunables@ =~= Map::<u32, u32>::empty());
        manifest
    }

    /// Take in one `key=value` entry.
    fn take_entry<R: Fn(&str) -> String>(
        &mut self,
        chars: &Vec<char>,
        key: (usize, usize),
        value: (usize, usize),
        base: &str,
        resolve: &R,
        Ghost(written): Ghost<Manifest>,
    ) -> (done: Result<(), String>)
        requires
            resolves(*resolve),
            old(self).holds(written, base@, *resolve),
            key.0 <= key.1 <= chars@.len(),
            value.0 <= value.1 <= chars@.len(),
        ensures
            match written.with_entry(
                chars@.subrange(key.0 as int, key.1 as int),
                chars@.subrange(value.0 as int, value.1 as int),
                base@,
            ) {
                Ok(next) => done is Ok && final(self).holds(next, base@, *resolve),
                Err(problem) => done matches Err(message) && message@ == problem,
            },
    {
        let ghost k = chars@.subrange(key.0 as int, key.1 as int);
        let ghost v = chars@.subrange(value.0 as int, value.1 as int);
        if spells(chars, key.0, key.1, "model_identifier") {
            self.model_identifier = spell(chars, value.0, value.1);
        } else if spells(chars, key.0, key.1, "guid") {
            self.guid = spell(chars, value.0, value.1);
        } else if spells(chars, key.0, key.1, "library") {
            self.library = join_path(base, spell(chars, value.0, value.1).as_str());
        } else if spells(chars, key.0, key.1, "resources") {
            self.resource_uri = resource_uri(
                spell(chars, value.0, value.1).as_str(),
                base,
                resolve,
            );
        } else if spells(chars, key.0, key.1, "states") {
            match read_unsigned(chars, value.0, value.1, 10, usize::MAX as u64) {
                Some(n) => {
                    self.continuous_states = n as usize;
                },
                None => {
                    return Err(complaint("bad states: ", chars, value.0, value.1));
                },
            }
        } else if spells(chars, key.0, key.1, "event_indicators") {
            match read_unsigned(chars, value.0, value.1, 10, usize::MAX as u64) {
                Some(n) => {
                    self.event_indicators = n as usize;
                },
                None => {
                    return Err(complaint("bad event_indicators: ", chars, value.0, value.1));
                },
            }
        } else if spells(chars, key.0, key.1, "vehicle_hash") {
            let mut start: usize = value.0;
            while value.1 - start >= 2 && chars[start] == '0' && chars[start + 1] == 'x'
                invariant
                    value.0 <= start <= value.1 <= chars@.len(),
                    v == chars@.subrange(value.0 as int, value.1 as int),
                    unprefixed(v) == unprefixed(chars@.subrange(start as int, value.1 as int)),
                decreases value.1 - start,
            {
                assert(chars@.subrange(start as int, value.1 as int).skip(2) =~= chars@.subrange(
                    start + 2,
                    value.1 as int,
                ));
                start += 2;
            }
            match read_unsigned(chars, start, value.1, 16, u64::MAX) {
                Some(n) => {
                    self.vehicle_hash = n;
                },
                None => {
                    return Err(complaint("bad vehicle_hash: ", chars, value.0, value.1));
                },
            }
        } else if let Some(at) = past_prefix(chars, key.0, key.1, "vref:") {
            assert(k.skip("vref:"@.len() as int) =~= chars@.subrange(at as int, key.1 as int));
            match read_unsigned(chars, value.0, value.1, 10, u32::MAX as u64) {
                Some(n) => {
                    let ghost before = self.value_references@;
                    self.value_references.push((spell(chars, at, key.1), n as u32));
                    assert(self.value_references@.drop_last() =~= before);
                },
                None => {
                    let mut message: String = complaint(
                        "bad value reference for ",
                        chars,
                        at,
                        key.1,
                    );
                    message.append(": ");
                    message.append(spell(chars, value.0, value.1).as_str());
                    return Err(message);
                },
            }
        } else if let Some(at) = past_prefix(chars, key.0, key.1, "tunable:") {
            assert(k.skip("tunable:"@.len() as int) =~= chars@.subrange(at as int, key.1 as int));
            match read_unsigned(chars, at, key.1, 10, u32::MAX as u64) {
                None => {
                    return Err(complaint("bad tunable id: ", chars, at, key.1));
                },
                Some(id) => match read_unsigned(chars, value.0, value.1, 10, u32::MAX as u64) {
                    None => {
                        return Err(complaint("bad tunable reference: ", chars, value.0, value.1));
                    },
                    Some(n) => {
                        self.tunables.insert(id as u32, n as u32);
                    },
                },
            }
        }
        Ok(())
    }

    /// Parse the flat manifest the session writes beside the FMU.
    ///
    /// Format is deliberately trivial -- `key=value`, one per line -- so the
    /// real-time process needs no parser library and no allocation beyond the
    /// strings themselves. `resolve` makes a path absolute.
    pub fn parse<R: Fn(&str) -> String>(text: &str, base: &str, resolve: &R) -> (manifest: Result<
        Self,
        String,
    >)
        requires
            resolves(*resolve),
        ensures
            match Manifest::parsed(text@, base@) {
                Ok(written) => manifest matches Ok(m) && m.holds(written, base@, *resolve),
                Err(problem) => manifest matches Err(message) && message@ == problem,
            },
    {
        let chars: Vec<char> = letters(text);
        let mut manifest: PlantManifest = Self::blank();
        let mut at: usize = 0;
        let mut passed: u64 = 0;
        let ghost whole = Manifest::blank().with_lines(text@, 1, base@);
        let ghost mut said = Manifest::blank();
        assert(chars@.skip(0) =~= text@);
        while at < chars.len()
            invariant
                resolves(*resolve),
                at <= chars@.len(),
                chars@ == text@,
                passed <= at,
                manifest.holds(said, base@, *resolve),
                whole == Manifest::blank().with_lines(text@, 1, base@),
                whole == said.with_lines(chars@.skip(at as int), (passed + 1) as nat, base@),
            decreases chars@.len() - at,
        {
            let len: usize = chars.len();
            let ghost rest = chars@.skip(at as int);
            assert(chars@.subrange(at as int, len as int) =~= rest);
            let end: usize = find(&chars, at, len, '\n');
            assert(rest.take(end - at) =~= chars@.subrange(at as int, end as int));
            let line: (usize, usize) = trim(&chars, at, end);
            let ghost written = chars@.subrange(line.0 as int, line.1 as int);
            if line.0 < line.1 && chars[line.0] != '#' {
                let equals: usize = find(&chars, line.0, line.1, '=');
                if equals >= line.1 {
                    let mut message: String = "manifest line ".to_owned();
                    message.append(count_text(passed + 1).as_str());
                    message.append(": expected key=value");
                    return Err(message);
                }
                proof {
                    let p = equals - line.0;
                    assert(written.take(p) =~= chars@.subrange(line.0 as int, equals as int));
                    assert(written.skip(p + 1) =~= chars@.subrange(equals + 1, line.1 as int));
                }
                let key: (usize, usize) = trim(&chars, line.0, equals);
                let value: (usize, usize) = trim(&chars, equals + 1, line.1);
                match manifest.take_entry(&chars, key, value, base, resolve, Ghost(said)) {
                    Ok(_) => {},
                    Err(message) => {
                        return Err(message);
                    },
                }
            }
            proof {
                said = said.with_line(written, (passed + 1) as nat, base@)->Ok_0;
            }
            if end < len {
                assert(rest.skip(end - at + 1) =~= chars@.skip(end + 1));
                at = end + 1;
                passed += 1;
            } else {
                assert(chars@.skip(len as int) =~= Seq::<char>::empty());
                at = len;
            }
        }
        assert(chars@.skip(at as int) =~= Seq::<char>::empty());
        if manifest.model_identifier.as_str().is_empty() {
            return Err("manifest has no model_identifier".to_owned());
        }
        if manifest.continuous_states == 0 {
            return Err(
                "manifest reports zero continuous states; an FMU with no states cannot be a vehicle".to_owned(),
            );
        }
        Ok(manifest)
    }
}

// --- what the manifest names ----------------------------------------------------------

/// The three driver inputs, by the model's own names.
pub open spec fn input_name(index: int) -> Seq<char> {
    if index == 0 {
        "steeringAngleCommand"@
    } else if index == 1 {
        "acceleratorPedalCommand"@
    } else {
        "brakePedalCommand"@
    }
}

fn input_signal(index: usize) -> (name: &'static str)
    ensures
        name@ == input_name(index as int),
{
    match index {
        0 => "steeringAngleCommand",
        1 => "acceleratorPedalCommand",
        _ => "brakePedalCommand",
    }
}

/// The outputs among the first `slots` signals that the manifest names, each
/// with the field it fills.
pub open spec fn outputs_named(references: Map<Seq<char>, ValueReference>, slots: nat) -> Seq<
    (ValueReference, usize),
>
    decreases slots,
{
    if slots == 0 {
        Seq::empty()
    } else {
        let before = outputs_named(references, (slots - 1) as nat);
        let name = frames::signal_name(slots - 1);
        if references.contains_key(name) {
            before.push((references[name], frames::signal_field(slots - 1) as usize))
        } else {
            before
        }
    }
}

/// The text holds no NUL, so it can be handed to C.
pub open spec fn c_string(text: Seq<char>) -> bool {
    forall|i: int| 0 <= i < text.len() ==> #[trigger] text[i] != '\0'
}

fn is_c_string(text: &str) -> (answer: bool)
    ensures
        answer == c_string(text@),
{
    let chars: Vec<char> = letters(text);
    let mut i: usize = 0;
    while i < chars.len()
        invariant
            i <= chars@.len(),
            chars@ == text@,
            forall|j: int| 0 <= j < i ==> #[trigger] text@[j] != '\0',
        decreases chars@.len() - i,
    {
        if chars[i] == '\0' {
            assert(text@[i as int] == '\0');
            return false;
        }
        i += 1;
    }
    true
}

impl PlantManifest {
    /// The reference of the signal called `name`.
    pub fn value_reference(&self, name: &str) -> (reference: Option<ValueReference>)
        ensures
            match reference {
                Some(r) => self.references().contains_key(name@)
                    && self.references()[name@] == r,
                None => !self.references().contains_key(name@),
            },
    {
        let wanted: Vec<char> = letters(name);
        let mut left: usize = self.value_references.len();
        assert(self.value_references@.take(left as int) =~= self.value_references@);
        while left > 0
            invariant
                left <= self.value_references@.len(),
                wanted@ == name@,
                as_map(self.value_references@).contains_key(name@) == as_map(
                    self.value_references@.take(left as int),
                ).contains_key(name@),
                as_map(self.value_references@)[name@] == as_map(
                    self.value_references@.take(left as int),
                )[name@] || !as_map(self.value_references@).contains_key(name@),
            decreases left,
        {
            left -= 1;
            let entry: &(String, ValueReference) = &self.value_references[left];
            proof {
                let shown = self.value_references@.take(left + 1);
                assert(shown.drop_last() =~= self.value_references@.take(left as int));
                assert(shown.last() == self.value_references@[left as int]);
            }
            if spells(&wanted, 0, wanted.len(), entry.0.as_str()) {
                assert(wanted@.subrange(0, wanted@.len() as int) =~= name@);
                return Some(entry.1);
            }
            assert(wanted@.subrange(0, wanted@.len() as int) =~= name@);
        }
        assert(self.value_references@.take(0) =~= Seq::empty());
        None
    }

    /// The references of the three driver inputs. All of them are needed.
    pub fn input_references(&self) -> (references: Result<Vec<ValueReference>, PlantError>)
        ensures
            match references {
                Ok(refs) => refs@.len() == 3 && forall|i: int|
                    0 <= i < 3 ==> #[trigger] self.references().contains_key(
                        input_name(i),
                    ) && refs@[i] == self.references()[input_name(i)],
                Err(PlantError::Load { detail }) => exists|i: int|
                    0 <= i < 3 && !(#[trigger] self.references().contains_key(
                        input_name(i),
                    )) && (forall|j: int|
                        0 <= j < i ==> #[trigger] self.references().contains_key(
                            input_name(j),
                        )) && detail@ == "manifest is missing input "@ + input_name(i),
                Err(_) => false,
            },
    {
        let mut refs: Vec<ValueReference> = Vec::new();
        let mut i: usize = 0;
        while i < 3
            invariant
                i <= 3,
                refs@.len() == i,
                forall|j: int|
                    0 <= j < i ==> #[trigger] self.references().contains_key(
                        input_name(j),
                    ) && refs@[j] == self.references()[input_name(j)],
            decreases 3 - i,
        {
            let name: &'static str = input_signal(i);
            match self.value_reference(name) {
                Some(reference) => {
                    refs.push(reference);
                },
                None => {
                    let mut detail: String = "manifest is missing input ".to_owned();
                    detail.append(name);
                    assert(!self.references().contains_key(input_name(i as int)));
                    return Err(PlantError::Load { detail });
                },
            }
            i += 1;
        }
        Ok(refs)
    }

    /// Only the outputs the FMU actually exposes are read. A model that does
    /// not publish a signal is a missing signal, not a fatal error: the field
    /// stays at zero and the UI shows it as unavailable.
    pub fn output_references(&self) -> (references: Vec<(ValueReference, usize)>)
        ensures
            references@ == outputs_named(
                self.references(),
                frames::FMI_SIGNAL_COUNT as nat,
            ),
    {
        let mut references: Vec<(ValueReference, usize)> = Vec::new();
        let mut slot: usize = 0;
        while slot < frames::FMI_SIGNAL_COUNT
            invariant
                slot <= frames::FMI_SIGNAL_COUNT,
                references@ == outputs_named(self.references(), slot as nat),
            decreases frames::FMI_SIGNAL_COUNT - slot,
        {
            let signal: (&'static str, usize) = frames::vehicle_state_fmi_signal(slot);
            if let Some(reference) = self.value_reference(signal.0) {
                references.push((reference, signal.1));
            }
            slot += 1;
        }
        references
    }

    /// The strings handed to `fmi2Instantiate` must be C strings.
    pub fn check_strings(&self) -> (verdict: Result<(), PlantError>)
        ensures
            verdict is Ok == (c_string(self.model_identifier@) && c_string(self.guid@) && c_string(
                self.resource_uri@,
            )),
            verdict matches Err(error) ==> error matches PlantError::Load { detail } && detail@
                == if !c_string(self.model_identifier@) {
                "model identifier is not a C string"@
            } else if !c_string(self.guid@) {
                "guid is not a C string"@
            } else {
                "resource uri is not a C string"@
            },
    {
        if !is_c_string(self.model_identifier.as_str()) {
            return Err(
                PlantError::Load { detail: "model identifier is not a C string".to_owned() },
            );
        }
        if !is_c_string(self.guid.as_str()) {
            return Err(PlantError::Load { detail: "guid is not a C string".to_owned() });
        }
        if !is_c_string(self.resource_uri.as_str()) {
            return Err(PlantError::Load { detail: "resource uri is not a C string".to_owned() });
        }
        Ok(())
    }

    /// What the model can do.
    ///
    /// The largest stable step is not knowable without measurement, so the
    /// conservative baseline stands, and the loop will refuse a larger one.
    pub fn capabilities(&self, which: u64) -> (caps: KernelCaps)
        ensures
            caps.described() == (crate::plant::Description {
                id: which,
                name: self.model_identifier@,
                max_stable_dt: BASELINE_DT,
                continuous_states: self.continuous_states,
                supports_tunables: self.tunables@.len() > 0,
            }),
    {
        KernelCaps {
            id: which,
            name: self.model_identifier.clone(),
            max_stable_dt: BASELINE_DT,
            continuous_states: self.continuous_states,
            supports_tunables: self.tunables.len() > 0,
        }
    }

    /// The reference through which a tunable is set, once its value has been
    /// checked against its range.
    pub fn tunable_reference(&self, id: u32, value: Scalar) -> (reference: Result<
        ValueReference,
        PlantError,
    >)
        ensures
            match reference {
                Ok(r) => id < frames::TUNABLE_COUNT && is_at_most(
                    frames::tunable_min(id as int),
                    value,
                ) && is_at_most(value, frames::tunable_max(id as int))
                    && self.tunables@.contains_key(id) && self.tunables@[id] == r,
                Err(PlantError::UnknownTunable { id: unknown }) => id >= frames::TUNABLE_COUNT
                    && unknown == id,
                Err(PlantError::OutOfRange { id: which, value: given, min, max }) => id
                    < frames::TUNABLE_COUNT && !(is_at_most(frames::tunable_min(id as int), value)
                    && is_at_most(value, frames::tunable_max(id as int))) && which == id && given
                    == value && min == frames::tunable_min(id as int) && max == frames::tunable_max(
                    id as int,
                ),
                Err(PlantError::Unsupported { what }) => id < frames::TUNABLE_COUNT && is_at_most(
                    frames::tunable_min(id as int),
                    value,
                ) && is_at_most(value, frames::tunable_max(id as int))
                    && !self.tunables@.contains_key(id) && what@ == "this tunable in this FMU"@,
                Err(_) => false,
            },
    {
        if id >= frames::TUNABLE_COUNT {
            return Err(PlantError::UnknownTunable { id });
        }
        let row: frames::TunableSpec = frames::tunable(id);
        if !(is_at_most(row.min, value) && is_at_most(value, row.max)) {
            return Err(PlantError::OutOfRange { id, value, min: row.min, max: row.max });
        }
        match self.tunables.get(&id) {
            Some(reference) => Ok(*reference),
            None => Err(PlantError::Unsupported { what: "this tunable in this FMU" }),
        }
    }
}

// --- outputs --------------------------------------------------------------------------

/// `state` with the field at `index` set, when a model can supply that field.
pub open spec fn with_field(state: VehicleState, index: int, value: Scalar) -> VehicleState {
    if index == 6 {
        VehicleState { vehicle_speed: value, ..state }
    } else if index == 7 {
        VehicleState { acc_x: value, ..state }
    } else if index == 8 {
        VehicleState { acc_y: value, ..state }
    } else if index == 9 {
        VehicleState { handwheel_angle: value, ..state }
    } else if index == 10 {
        VehicleState { steer_excess: value, ..state }
    } else if index == 11 {
        VehicleState { handwheel_torque: value, ..state }
    } else if index == 12 {
        VehicleState { fz_fl: value, ..state }
    } else if index == 13 {
        VehicleState { fz_fr: value, ..state }
    } else if index == 14 {
        VehicleState { fz_rl: value, ..state }
    } else if index == 15 {
        VehicleState { fz_rr: value, ..state }
    } else if index == 16 {
        VehicleState { left_steer_angle: value, ..state }
    } else if index == 17 {
        VehicleState { right_steer_angle: value, ..state }
    } else if index == 18 {
        VehicleState { roll: value, ..state }
    } else if index == 19 {
        VehicleState { sideslip: value, ..state }
    } else if index == 20 {
        VehicleState { vel_x: value, ..state }
    } else if index == 21 {
        VehicleState { vel_y: value, ..state }
    } else if index == 22 {
        VehicleState { yaw_vel: value, ..state }
    } else {
        state
    }
}

/// Assign a `VehicleState` field by schema index.
///
/// The read side of this is `VehicleState::field`. Both are driven by the same
/// index, so a schema change moves them together.
pub fn write_field(state: &mut VehicleState, index: usize, value: Scalar)
    ensures
        *final(state) == with_field(*old(state), index as int, value),
{
    match index {
        6 => state.vehicle_speed = value,
        7 => state.acc_x = value,
        8 => state.acc_y = value,
        9 => state.handwheel_angle = value,
        10 => state.steer_excess = value,
        11 => state.handwheel_torque = value,
        12 => state.fz_fl = value,
        13 => state.fz_fr = value,
        14 => state.fz_rl = value,
        15 => state.fz_rr = value,
        16 => state.left_steer_angle = value,
        17 => state.right_steer_angle = value,
        18 => state.roll = value,
        19 => state.sideslip = value,
        20 => state.vel_x = value,
        21 => state.vel_y = value,
        22 => state.yaw_vel = value,
        _ => {},
    }
}

/// Every field a model can supply reads back as written, and nothing else
/// moves: an FMU output cannot land in the wrong place.
pub proof fn law_written_fields_read_back(state: VehicleState, slot: int, value: Scalar, other: int)
    requires
        0 <= slot < frames::FMI_SIGNAL_COUNT,
        0 <= other < VehicleState::size(),
    ensures
        with_field(state, frames::signal_field(slot), value).word(other) == if other
            == frames::signal_field(slot) {
            value
        } else {
            state.word(other)
        },
{
}

/// A frame with the first `count` outputs in place.
pub open spec fn filled(
    state: VehicleState,
    references: Seq<(ValueReference, usize)>,
    values: Seq<Scalar>,
    count: nat,
) -> VehicleState
    decreases count,
{
    if count == 0 {
        state
    } else {
        with_field(
            filled(state, references, values, (count - 1) as nat),
            references[count - 1].1 as int,
            values[count - 1],
        )
    }
}

/// The frame an FMU's outputs make, before it is checked.
pub fn read_outputs(
    time: Scalar,
    step_index: u64,
    input: &DriverInput,
    which: u64,
    references: &Vec<(ValueReference, usize)>,
    values: &Vec<Scalar>,
) -> (state: VehicleState)
    requires
        references@.len() == values@.len(),
    ensures
        state == filled(
            VehicleState {
                sim_time: time,
                step_index,
                steering_angle_command: input.steering_angle_command,
                accelerator_pedal_command: input.accelerator_pedal_command,
                brake_pedal_command: input.brake_pedal_command,
                kernel_id: which,
                ..VehicleState::zero()
            },
            references@,
            values@,
            references@.len(),
        ),
{
    let mut state: VehicleState = VehicleState::default();
    state.sim_time = time;
    state.step_index = step_index;
    state.steering_angle_command = input.steering_angle_command;
    state.accelerator_pedal_command = input.accelerator_pedal_command;
    state.brake_pedal_command = input.brake_pedal_command;
    state.kernel_id = which;
    let ghost start = state;
    let mut i: usize = 0;
    while i < references.len()
        invariant
            i <= references@.len(),
            references@.len() == values@.len(),
            state == filled(start, references@, values@, i as nat),
        decreases references@.len() - i,
    {
        write_field(&mut state, references[i].1, values[i]);
        i += 1;
    }
    state
}

} // verus!
