//! MIDI port handling: which ports are real devices, port lookup by name, and the errors of
//! the MIDI backend.

use vstd::prelude::*;

verus! {

/// An error that can occur during initialization (i.e., while creating a MIDI input or output
/// object).
#[derive(Debug, Clone, Copy, PartialEq, Eq)]
pub struct InitError;

impl InitError {
    /// Human-readable description of the error.
    pub fn message(&self) -> (m: &'static str)
        ensures
            m@ == "MIDI support could not be initialized"@,
    {
        "MIDI support could not be initialized"
    }
}

/// An error that can occur when sending MIDI messages.
#[derive(Debug, Clone, Copy, PartialEq, Eq)]
pub enum SendError {
    InvalidData(&'static str),
    Other(&'static str),
}

impl SendError {
    /// Human-readable description of the error: the backend's message.
    pub fn message(&self) -> (m: &'static str)
        ensures
            m == match *self {
                SendError::InvalidData(msg) => msg,
                SendError::Other(msg) => msg,
            },
    {
        match *self {
            SendError::InvalidData(msg) => msg,
            SendError::Other(msg) => msg,
        }
    }
}

/// A MIDI output port, identified by its name.
#[derive(Debug, Clone, PartialEq, Eq, Hash)]
pub struct MidiOutputPort(String);

/// A MIDI input port, identified by its name.
#[derive(Debug, Clone, PartialEq, Eq, Hash)]
pub struct MidiInputPort(String);

impl View for MidiOutputPort {
    type V = Seq<char>;

    /// The port's name.
    closed spec fn view(&self) -> Seq<char> {
        self.0@
    }
}

impl MidiOutputPort {
    /// The port with the given name.
    pub fn new(name: String) -> (p: Self)
        ensures
            p@ == name@,
    {
        MidiOutputPort(name)
    }

    /// The port's name (what the port displays as).
    pub fn name(&self) -> (n: &str)
        ensures
            n@ == self@,
    {
        self.0.as_str()
    }
}

impl View for MidiInputPort {
    type V = Seq<char>;

    /// The port's name.
    closed spec fn view(&self) -> Seq<char> {
        self.0@
    }
}

impl MidiInputPort {
    /// The port with the given name.
    pub fn new(name: String) -> (p: Self)
        ensures
            p@ == name@,
    {
        MidiInputPort(name)
    }

    /// The port's name (what the port displays as).
    pub fn name(&self) -> (n: &str)
        ensures
            n@ == self@,
    {
        self.0.as_str()
    }
}

/// Unicode `White_Space` characters (what `char::is_whitespace` accepts).
pub open spec fn is_whitespace(c: char) -> bool {
    let n = c as u32;
    ||| 0x09 <= n <= 0x0D
    ||| n == 0x20
    ||| n == 0x85
    ||| n == 0xA0
    ||| n == 0x1680
    ||| 0x2000 <= n <= 0x200A
    ||| n == 0x2028
    ||| n == 0x2029
    ||| n == 0x202F
    ||| n == 0x205F
    ||| n == 0x3000
}

/// The text before the first ':' (all of it when there is none).
pub open spec fn before_colon(s: Seq<char>) -> Seq<char>
    decreases s.len(),
{
    if s.len() == 0 {
        s
    } else if s[0] == ':' {
        Seq::empty()
    } else {
        seq![s[0]] + before_colon(s.drop_first())
    }
}

/// `s` without its leading whitespace.
pub open spec fn trim_start(s: Seq<char>) -> Seq<char>
    decreases s.len(),
{
    if s.len() > 0 && is_whitespace(s[0]) {
        trim_start(s.drop_first())
    } else {
        s
    }
}

/// `s` without its trailing whitespace.
pub open spec fn trim_end(s: Seq<char>) -> Seq<char>
    decreases s.len(),
{
    if s.len() > 0 && is_whitespace(s.last()) {
        trim_end(s.drop_last())
    } else {
        s
    }
}

/// `s` without leading and trailing whitespace.
pub open spec fn trim(s: Seq<char>) -> Seq<char> {
    trim_end(trim_start(s))
}

/// The ALSA sequencer client of a port name ("client:port ..."): the text before the first
/// ':', trimmed.
pub open spec fn port_client(name: Seq<char>) -> Seq<char> {
    trim(before_colon(name))
}

/// A port is a real MIDI device unless its client is the kernel's "System" client or the
/// "Midi Through" loopback.
pub open spec fn spec_is_real_device(name: Seq<char>) -> bool {
    port_client(name) != "System"@ && port_client(name) != "Midi Through"@
}

proof fn lemma_before_colon(s: Seq<char>, k: int)
    requires
        0 <= k <= s.len(),
        forall|i: int| 0 <= i < k ==> s[i] != ':',
        k == s.len() || s[k] == ':',
    ensures
        before_colon(s) == s.subrange(0, k),
    decreases s.len(),
{
    if s.len() > 0 && s[0] != ':' {
        lemma_before_colon(s.drop_first(), k - 1);
        assert(seq![s[0]] + s.drop_first().subrange(0, k - 1) =~= s.subrange(0, k));
    } else {
        assert(s.subrange(0, k) =~= Seq::<char>::empty());
    }
}

proof fn lemma_trim_start(s: Seq<char>, a: int)
    requires
        0 <= a <= s.len(),
        forall|i: int| 0 <= i < a ==> is_whitespace(#[trigger] s[i]),
        a == s.len() || !is_whitespace(s[a]),
    ensures
        trim_start(s) == s.subrange(a, s.len() as int),
    decreases s.len(),
{
    if s.len() > 0 && is_whitespace(s[0]) {
        assert(a > 0);
        assert forall|i: int| 0 <= i < a - 1 implies is_whitespace(#[trigger] s.drop_first()[i]) by {
            assert(s.drop_first()[i] == s[i + 1]);
        }
        lemma_trim_start(s.drop_first(), a - 1);
        assert(s.drop_first().subrange(a - 1, s.len() - 1) =~= s.subrange(a, s.len() as int));
    } else {
        assert(a == 0);
        assert(s.subrange(0, s.len() as int) =~= s);
    }
}

proof fn lemma_trim_end(s: Seq<char>, b: int)
    requires
        0 <= b <= s.len(),
        forall|i: int| b <= i < s.len() ==> is_whitespace(#[trigger] s[i]),
        b == 0 || !is_whitespace(s[b - 1]),
    ensures
        trim_end(s) == s.subrange(0, b),
    decreases s.len(),
{
    if s.len() > 0 && is_whitespace(s.last()) {
        assert(b < s.len());
        lemma_trim_end(s.drop_last(), b);
        assert(s.drop_last().subrange(0, b) =~= s.subrange(0, b));
    } else {
        assert(b == s.len());
        assert(s.subrange(0, s.len() as int) =~= s);
    }
}

/// Whether a character is Unicode whitespace.
fn char_is_whitespace(c: char) -> (b: bool)
    ensures
        b == is_whitespace(c),
{
    let n = c as u32;
    (0x09 <= n && n <= 0x0D) || n == 0x20 || n == 0x85 || n == 0xA0 || n == 0x1680 || (0x2000
        <= n && n <= 0x200A) || n == 0x2028 || n == 0x2029 || n == 0x202F || n == 0x205F || n
        == 0x3000
}

/// Whether `chars[lo..hi]` spells `lit`.
fn spells(chars: &Vec<char>, lo: usize, hi: usize, lit: &str) -> (b: bool)
    requires
        lo <= hi <= chars@.len(),
    ensures
        b == (chars@.subrange(lo as int, hi as int) == lit@),
{
    let len = lit.unicode_len();
    if hi - lo != len {
        assert(chars@.subrange(lo as int, hi as int).len() != lit@.len());
        return false;
    }
    let mut i: usize = 0;
    while i < len
        invariant
            lo <= hi <= chars@.len(),
            hi - lo == len,
            len == lit@.len(),
            i <= len,
            forall|j: int| 0 <= j < i ==> chars@[lo + j] == lit@[j],
        decreases len - i,
    {
        if chars[lo + i] != lit.get_char(i) {
            assert(chars@.subrange(lo as int, hi as int)[i as int] != lit@[i as int]);
            return false;
        }
        i = i + 1;
    }
    assert(chars@.subrange(lo as int, hi as int) =~= lit@);
    true
}

/// Whether a port name belongs to a real MIDI device, filtering out the ALSA kernel system
/// ports and the loopback port.
///
/// Those ports (such as `System:Timer`, `System:Announce`, `Midi Through`) are not MIDI
/// hardware; connecting them delivers a steady stream of timer ticks and client announcements
/// that are not music, flooding the main thread until the ALSA input buffer overflows.
pub fn is_real_device(name: &str) -> (b: bool)
    ensures
        b == spec_is_real_device(name@),
{
    // Port names from the Linux backend look like "System:Timer 0:0" or "Midi Through:... 14:0";
    // the text before the colon is the ALSA sequencer client.
    let len = name.unicode_len();
    let mut chars: Vec<char> = Vec::new();
    let mut i: usize = 0;
    while i < len
        invariant
            len == name@.len(),
            i <= len,
            chars@ == name@.take(i as int),
        decreases len - i,
    {
        chars.push(name.get_char(i));
        i = i + 1;
        assert(chars@ =~= name@.take(i as int));
    }
    assert(chars@ =~= name@);
    let mut end: usize = 0;
    while end < len && chars[end] != ':'
        invariant
            end <= len == chars@.len(),
            forall|j: int| 0 <= j < end ==> chars@[j] != ':',
        decreases len - end,
    {
        end = end + 1;
    }
    proof {
        lemma_before_colon(chars@, end as int);
    }
    let ghost prefix = chars@.subrange(0, end as int);
    let mut a: usize = 0;
    while a < end && char_is_whitespace(chars[a])
        invariant
            a <= end <= chars@.len(),
            forall|j: int| 0 <= j < a ==> is_whitespace(#[trigger] chars@[j]),
        decreases end - a,
    {
        a = a + 1;
    }
    proof {
        assert forall|j: int| 0 <= j < a implies is_whitespace(#[trigger] prefix[j]) by {
            assert(prefix[j] == chars@[j]);
        }
        if a < end {
            assert(prefix[a as int] == chars@[a as int]);
        }
        lemma_trim_start(prefix, a as int);
    }
    let ghost rest = prefix.subrange(a as int, end as int);
    let mut b: usize = end;
    while b > a && char_is_whitespace(chars[b - 1])
        invariant
            a <= b <= end <= chars@.len(),
            forall|j: int| b <= j < end ==> is_whitespace(#[trigger] chars@[j]),
        decreases b - a,
    {
        b = b - 1;
    }
    proof {
        assert(rest =~= chars@.subrange(a as int, end as int));
        assert forall|j: int| b - a <= j < rest.len() implies is_whitespace(#[trigger] rest[j]) by {
            assert(rest[j] == chars@[a + j]);
        }
        if b > a {
            assert(rest[b - a - 1] == chars@[b - 1]);
        }
        lemma_trim_end(rest, (b - a) as int);
        assert(rest.subrange(0, (b - a) as int) =~= chars@.subrange(a as int, b as int));
        reveal_strlit("System");
        reveal_strlit("Midi Through");
    }
    !spells(&chars, a, b, "System") && !spells(&chars, a, b, "Midi Through")
}

} // verus!

verus! {

/// The names among `names` that belong to real devices, in order.
pub open spec fn real_device_names(names: Seq<Seq<char>>) -> Seq<Seq<char>>
    decreases names.len(),
{
    if names.len() == 0 {
        Seq::empty()
    } else {
        let rest = real_device_names(names.drop_last());
        if spec_is_real_device(names.last()) {
            rest.push(names.last())
        } else {
            rest
        }
    }
}

/// Names of a list of strings.
pub open spec fn string_views(names: Seq<String>) -> Seq<Seq<char>> {
    names.map_values(|s: String| s@)
}

fn real_names(names: &Vec<String>) -> (out: Vec<String>)
    ensures
        string_views(out@) == real_device_names(string_views(names@)),
{
    let mut out: Vec<String> = Vec::new();
    let mut i: usize = 0;
    while i < names.len()
        invariant
            i <= names@.len(),
            string_views(out@) == real_device_names(string_views(names@.take(i as int))),
        decreases names@.len() - i,
    {
        let s = names[i].clone();
        assert(string_views(names@.take(i + 1)).drop_last() =~= string_views(names@.take(i as int)));
        assert(string_views(names@.take(i + 1)).last() == s@);
        let ghost pre = out@;
        if is_real_device(s.as_str()) {
            out.push(s);
            assert(string_views(out@) =~= string_views(pre).push(s@));
        }
        i = i + 1;
    }
    assert(names@.take(names@.len() as int) =~= names@);
    out
}

/// Output ports for the given port names, keeping only real devices (see [`is_real_device`]).
pub fn output_ports(names: &Vec<String>) -> (ports: Vec<MidiOutputPort>)
    ensures
        ports@.len() == real_device_names(string_views(names@)).len(),
        forall|k: int| 0 <= k < ports@.len() ==> (#[trigger] ports@[k])@ == real_device_names(string_views(names@))[k],
{
    let kept = real_names(names);
    let mut ports: Vec<MidiOutputPort> = Vec::new();
    let mut i: usize = 0;
    while i < kept.len()
        invariant
            i <= kept@.len(),
            ports@.len() == i,
            forall|j: int| 0 <= j < i ==> (#[trigger] ports@[j])@ == kept@[j]@,
        decreases kept@.len() - i,
    {
        ports.push(MidiOutputPort::new(kept[i].clone()));
        i = i + 1;
    }
    assert forall|j: int| 0 <= j < ports@.len() implies (#[trigger] ports@[j])@ == real_device_names(string_views(names@))[j] by {
        assert(string_views(kept@)[j] == kept@[j]@);
    }
    ports
}

/// Input ports for the given port names, keeping only real devices (see [`is_real_device`]).
pub fn input_ports(names: &Vec<String>) -> (ports: Vec<MidiInputPort>)
    ensures
        ports@.len() == real_device_names(string_views(names@)).len(),
        forall|k: int| 0 <= k < ports@.len() ==> (#[trigger] ports@[k])@ == real_device_names(string_views(names@))[k],
{
    let kept = real_names(names);
    let mut ports: Vec<MidiInputPort> = Vec::new();
    let mut i: usize = 0;
    while i < kept.len()
        invariant
            i <= kept@.len(),
            ports@.len() == i,
            forall|j: int| 0 <= j < i ==> (#[trigger] ports@[j])@ == kept@[j]@,
        decreases kept@.len() - i,
    {
        ports.push(MidiInputPort::new(kept[i].clone()));
        i = i + 1;
    }
    assert forall|j: int| 0 <= j < ports@.len() implies (#[trigger] ports@[j])@ == real_device_names(string_views(names@))[j] by {
        assert(string_views(kept@)[j] == kept@[j]@);
    }
    ports
}

/// Whether entry `k` of a port-name list is a readable name equal to `wanted`.
pub open spec fn names_match(names: Seq<Option<String>>, k: int, wanted: Seq<char>) -> bool {
    names[k] matches Some(s) && s@ == wanted
}

/// Index of the first port whose (readable) name is `wanted`, if any: how a stored port is
/// found again among the ports the backend currently lists.
pub fn find_port(names: &Vec<Option<String>>, wanted: &String) -> (r: Option<usize>)
    ensures
        r matches Some(i) ==> i < names@.len() && names_match(names@, i as int, wanted@) && forall|j: int|
            0 <= j < i ==> !#[trigger] names_match(names@, j, wanted@),
        r is None ==> forall|j: int| 0 <= j < names@.len() ==> !#[trigger] names_match(names@, j, wanted@),
{
    let mut k: usize = 0;
    while k < names.len()
        invariant
            k <= names@.len(),
            forall|j: int| 0 <= j < k ==> !#[trigger] names_match(names@, j, wanted@),
        decreases names@.len() - k,
    {
        match &names[k] {
            Some(s) => {
                if *s == *wanted {
                    return Some(k);
                }
            },
            None => {},
        }
        k = k + 1;
    }
    None
}

} // verus!
