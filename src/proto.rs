use vstd::prelude::*;

verus! {

/// The characters of an optional string field, empty where it is unset.
pub open spec fn text_or_empty(f: Option<String>) -> Seq<char> {
    match f {
        Some(s) => s@,
        None => Seq::empty(),
    }
}

/// The value of an optional integer field, zero where it is unset.
pub open spec fn i64_or_zero(f: Option<i64>) -> i64 {
    match f {
        Some(v) => v,
        None => 0,
    }
}

/// The value of an optional flag, false where it is unset.
pub open spec fn bool_or_false(f: Option<bool>) -> bool {
    match f {
        Some(v) => v,
        None => false,
    }
}

/// The value of an optional 32-bit field, zero where it is unset.
pub open spec fn u32_or_zero(f: Option<u32>) -> u32 {
    match f {
        Some(v) => v,
        None => 0,
    }
}

/// The value of an optional 64-bit field, zero where it is unset.
pub open spec fn u64_or_zero(f: Option<u64>) -> u64 {
    match f {
        Some(v) => v,
        None => 0,
    }
}

fn empty_str() -> (r: &'static str)
    ensures
        r@ == Seq::<char>::empty(),
{
    proof {
        reveal_strlit("");
    }
    ""
}

/// A deprecated record of a service's state, kept for servers that still send it.
#[derive(Clone, Debug)]
pub struct State {
    /// The timestamp, in seconds.
    pub time: Option<i64>,
    /// The state.
    pub state: Option<String>,
    /// The service name.
    pub service: Option<String>,
    /// The host name.
    pub host: Option<String>,
    /// The description.
    pub description: Option<String>,
    /// The once flag.
    pub once: Option<bool>,
    /// The tags.
    pub tags: Vec<String>,
    /// The time to live, as the bits of an `f32`.
    pub ttl: Option<u32>,
}

/// The mathematical model of a [`State`]: strings as characters, nested messages as models.
pub struct StateV {
    pub time: Option<i64>,
    pub state: Option<Seq<char>>,
    pub service: Option<Seq<char>>,
    pub host: Option<Seq<char>>,
    pub description: Option<Seq<char>>,
    pub once: Option<bool>,
    pub tags: Seq<Seq<char>>,
    pub ttl: Option<u32>,
}

impl View for State {
    type V = StateV;

    open spec fn view(&self) -> StateV {
        StateV {
            time: self.time,
            state: match self.state { Some(s) => Some(s@), None => None },
            service: match self.service { Some(s) => Some(s@), None => None },
            host: match self.host { Some(s) => Some(s@), None => None },
            description: match self.description { Some(s) => Some(s@), None => None },
            once: self.once,
            tags: self.tags@.map_values(|s: String| s@),
            ttl: self.ttl,
        }
    }
}

impl State {
    /// A value with every field unset or empty.
    pub fn new() -> (r: State)
        ensures
            r.is_empty(),
    {
        State {
            time: None,
            state: None,
            service: None,
            host: None,
            description: None,
            once: None,
            tags: Vec::new(),
            ttl: None,
        }
    }

    /// The value every unset field reads as: the same as [`State::new`].
    pub fn default_instance() -> (r: State)
        ensures
            r.is_empty(),
    {
        State::new()
    }

    /// Unsets or empties every field.
    pub fn clear(&mut self)
        ensures
            final(self).is_empty(),
    {
        self.time = None;
        self.state = None;
        self.service = None;
        self.host = None;
        self.description = None;
        self.once = None;
        self.tags = Vec::new();
        self.ttl = None;
    }

    /// Every field is unset or empty.
    pub open spec fn is_empty(&self) -> bool {
        self.time is None
        && self.state is None
        && self.service is None
        && self.host is None
        && self.description is None
        && self.once is None
        && self.tags@.len() == 0
        && self.ttl is None
    }

    pub fn clear_time(&mut self)
        ensures
            final(self).time is None,
            final(self).state == old(self).state,
            final(self).service == old(self).service,
            final(self).host == old(self).host,
            final(self).description == old(self).description,
            final(self).once == old(self).once,
            final(self).tags == old(self).tags,
            final(self).ttl == old(self).ttl,
    {
        self.time = None;
    }

    pub fn has_time(&self) -> (r: bool)
        ensures
            r == self.time is Some,
    {
        self.time.is_some()
    }

    pub fn set_time(&mut self, v: i64)
        ensures
            final(self).time == Some(v),
            final(self).state == old(self).state,
            final(self).service == old(self).service,
            final(self).host == old(self).host,
            final(self).description == old(self).description,
            final(self).once == old(self).once,
            final(self).tags == old(self).tags,
            final(self).ttl == old(self).ttl,
    {
        self.time = Some(v);
    }

    pub fn get_time(&self) -> (r: i64)
        ensures
            r == i64_or_zero(self.time),
    {
        match self.time {
            Some(v) => v,
            None => 0,
        }
    }

    pub fn clear_state(&mut self)
        ensures
            final(self).state is None,
            final(self).time == old(self).time,
            final(self).service == old(self).service,
            final(self).host == old(self).host,
            final(self).description == old(self).description,
            final(self).once == old(self).once,
            final(self).tags == old(self).tags,
            final(self).ttl == old(self).ttl,
    {
        self.state = None;
    }

    pub fn has_state(&self) -> (r: bool)
        ensures
            r == self.state is Some,
    {
        self.state.is_some()
    }

    pub fn set_state(&mut self, v: String)
        ensures
            final(self).state == Some(v),
            final(self).time == old(self).time,
            final(self).service == old(self).service,
            final(self).host == old(self).host,
            final(self).description == old(self).description,
            final(self).once == old(self).once,
            final(self).tags == old(self).tags,
            final(self).ttl == old(self).ttl,
    {
        self.state = Some(v);
    }

    pub fn mut_state(&mut self) -> (r: &mut String)
        ensures
            old(self).state matches Some(v) ==> *r == v,
            old(self).state is None ==> r@.len() == 0,
            final(self).state == Some(*final(r)),
            final(self).time == old(self).time,
            final(self).service == old(self).service,
            final(self).host == old(self).host,
            final(self).description == old(self).description,
            final(self).once == old(self).once,
            final(self).tags == old(self).tags,
            final(self).ttl == old(self).ttl,
    {
        self.state.get_or_insert(String::new())
    }

    pub fn take_state(&mut self) -> (r: String)
        ensures
            old(self).state matches Some(v) ==> r == v,
            old(self).state is None ==> r@.len() == 0,
            final(self).state is None,
            final(self).time == old(self).time,
            final(self).service == old(self).service,
            final(self).host == old(self).host,
            final(self).description == old(self).description,
            final(self).once == old(self).once,
            final(self).tags == old(self).tags,
            final(self).ttl == old(self).ttl,
    {
        match self.state.take() {
            Some(v) => v,
            None => String::new(),
        }
    }

    pub fn get_state(&self) -> (r: &str)
        ensures
            r@ == text_or_empty(self.state),
    {
        match &self.state {
            Some(v) => v.as_str(),
            None => empty_str(),
        }
    }

    pub fn clear_service(&mut self)
        ensures
            final(self).service is None,
            final(self).time == old(self).time,
            final(self).state == old(self).state,
            final(self).host == old(self).host,
            final(self).description == old(self).description,
            final(self).once == old(self).once,
            final(self).tags == old(self).tags,
            final(self).ttl == old(self).ttl,
    {
        self.service = None;
    }

    pub fn has_service(&self) -> (r: bool)
        ensures
            r == self.service is Some,
    {
        self.service.is_some()
    }

    pub fn set_service(&mut self, v: String)
        ensures
            final(self).service == Some(v),
            final(self).time == old(self).time,
            final(self).state == old(self).state,
            final(self).host == old(self).host,
            final(self).description == old(self).description,
            final(self).once == old(self).once,
            final(self).tags == old(self).tags,
            final(self).ttl == old(self).ttl,
    {
        self.service = Some(v);
    }

    pub fn mut_service(&mut self) -> (r: &mut String)
        ensures
            old(self).service matches Some(v) ==> *r == v,
            old(self).service is None ==> r@.len() == 0,
            final(self).service == Some(*final(r)),
            final(self).time == old(self).time,
            final(self).state == old(self).state,
            final(self).host == old(self).host,
            final(self).description == old(self).description,
            final(self).once == old(self).once,
            final(self).tags == old(self).tags,
            final(self).ttl == old(self).ttl,
    {
        self.service.get_or_insert(String::new())
    }

    pub fn take_service(&mut self) -> (r: String)
        ensures
            old(self).service matches Some(v) ==> r == v,
            old(self).service is None ==> r@.len() == 0,
            final(self).service is None,
            final(self).time == old(self).time,
            final(self).state == old(self).state,
            final(self).host == old(self).host,
            final(self).description == old(self).description,
            final(self).once == old(self).once,
            final(self).tags == old(self).tags,
            final(self).ttl == old(self).ttl,
    {
        match self.service.take() {
            Some(v) => v,
            None => String::new(),
        }
    }

    pub fn get_service(&self) -> (r: &str)
        ensures
            r@ == text_or_empty(self.service),
    {
        match &self.service {
            Some(v) => v.as_str(),
            None => empty_str(),
        }
    }

    pub fn clear_host(&mut self)
        ensures
            final(self).host is None,
            final(self).time == old(self).time,
            final(self).state == old(self).state,
            final(self).service == old(self).service,
            final(self).description == old(self).description,
            final(self).once == old(self).once,
            final(self).tags == old(self).tags,
            final(self).ttl == old(self).ttl,
    {
        self.host = None;
    }

    pub fn has_host(&self) -> (r: bool)
        ensures
            r == self.host is Some,
    {
        self.host.is_some()
    }

    pub fn set_host(&mut self, v: String)
        ensures
            final(self).host == Some(v),
            final(self).time == old(self).time,
            final(self).state == old(self).state,
            final(self).service == old(self).service,
            final(self).description == old(self).description,
            final(self).once == old(self).once,
            final(self).tags == old(self).tags,
            final(self).ttl == old(self).ttl,
    {
        self.host = Some(v);
    }

    pub fn mut_host(&mut self) -> (r: &mut String)
        ensures
            old(self).host matches Some(v) ==> *r == v,
            old(self).host is None ==> r@.len() == 0,
            final(self).host == Some(*final(r)),
            final(self).time == old(self).time,
            final(self).state == old(self).state,
            final(self).service == old(self).service,
            final(self).description == old(self).description,
            final(self).once == old(self).once,
            final(self).tags == old(self).tags,
            final(self).ttl == old(self).ttl,
    {
        self.host.get_or_insert(String::new())
    }

    pub fn take_host(&mut self) -> (r: String)
        ensures
            old(self).host matches Some(v) ==> r == v,
            old(self).host is None ==> r@.len() == 0,
            final(self).host is None,
            final(self).time == old(self).time,
            final(self).state == old(self).state,
            final(self).service == old(self).service,
            final(self).description == old(self).description,
            final(self).once == old(self).once,
            final(self).tags == old(self).tags,
            final(self).ttl == old(self).ttl,
    {
        match self.host.take() {
            Some(v) => v,
            None => String::new(),
        }
    }

    pub fn get_host(&self) -> (r: &str)
        ensures
            r@ == text_or_empty(self.host),
    {
        match &self.host {
            Some(v) => v.as_str(),
            None => empty_str(),
        }
    }

    pub fn clear_description(&mut self)
        ensures
            final(self).description is None,
            final(self).time == old(self).time,
            final(self).state == old(self).state,
            final(self).service == old(self).service,
            final(self).host == old(self).host,
            final(self).once == old(self).once,
            final(self).tags == old(self).tags,
            final(self).ttl == old(self).ttl,
    {
        self.description = None;
    }

    pub fn has_description(&self) -> (r: bool)
        ensures
            r == self.description is Some,
    {
        self.description.is_some()
    }

    pub fn set_description(&mut self, v: String)
        ensures
            final(self).description == Some(v),
            final(self).time == old(self).time,
            final(self).state == old(self).state,
            final(self).service == old(self).service,
            final(self).host == old(self).host,
            final(self).once == old(self).once,
            final(self).tags == old(self).tags,
            final(self).ttl == old(self).ttl,
    {
        self.description = Some(v);
    }

    pub fn mut_description(&mut self) -> (r: &mut String)
        ensures
            old(self).description matches Some(v) ==> *r == v,
            old(self).description is None ==> r@.len() == 0,
            final(self).description == Some(*final(r)),
            final(self).time == old(self).time,
            final(self).state == old(self).state,
            final(self).service == old(self).service,
            final(self).host == old(self).host,
            final(self).once == old(self).once,
            final(self).tags == old(self).tags,
            final(self).ttl == old(self).ttl,
    {
        self.description.get_or_insert(String::new())
    }

    pub fn take_description(&mut self) -> (r: String)
        ensures
            old(self).description matches Some(v) ==> r == v,
            old(self).description is None ==> r@.len() == 0,
            final(self).description is None,
            final(self).time == old(self).time,
            final(self).state == old(self).state,
            final(self).service == old(self).service,
            final(self).host == old(self).host,
            final(self).once == old(self).once,
            final(self).tags == old(self).tags,
            final(self).ttl == old(self).ttl,
    {
        match self.description.take() {
            Some(v) => v,
            None => String::new(),
        }
    }

    pub fn get_description(&self) -> (r: &str)
        ensures
            r@ == text_or_empty(self.description),
    {
        match &self.description {
            Some(v) => v.as_str(),
            None => empty_str(),
        }
    }

    pub fn clear_once(&mut self)
        ensures
            final(self).once is None,
            final(self).time == old(self).time,
            final(self).state == old(self).state,
            final(self).service == old(self).service,
            final(self).host == old(self).host,
            final(self).description == old(self).description,
            final(self).tags == old(self).tags,
            final(self).ttl == old(self).ttl,
    {
        self.once = None;
    }

    pub fn has_once(&self) -> (r: bool)
        ensures
            r == self.once is Some,
    {
        self.once.is_some()
    }

    pub fn set_once(&mut self, v: bool)
        ensures
            final(self).once == Some(v),
            final(self).time == old(self).time,
            final(self).state == old(self).state,
            final(self).service == old(self).service,
            final(self).host == old(self).host,
            final(self).description == old(self).description,
            final(self).tags == old(self).tags,
            final(self).ttl == old(self).ttl,
    {
        self.once = Some(v);
    }

    pub fn get_once(&self) -> (r: bool)
        ensures
            r == bool_or_false(self.once),
    {
        match self.once {
            Some(v) => v,
            None => false,
        }
    }

    pub fn clear_tags(&mut self)
        ensures
            final(self).tags@.len() == 0,
            final(self).time == old(self).time,
            final(self).state == old(self).state,
            final(self).service == old(self).service,
            final(self).host == old(self).host,
            final(self).description == old(self).description,
            final(self).once == old(self).once,
            final(self).ttl == old(self).ttl,
    {
        self.tags = Vec::new();
    }

    pub fn set_tags(&mut self, v: Vec<String>)
        ensures
            final(self).tags == v,
            final(self).time == old(self).time,
            final(self).state == old(self).state,
            final(self).service == old(self).service,
            final(self).host == old(self).host,
            final(self).description == old(self).description,
            final(self).once == old(self).once,
            final(self).ttl == old(self).ttl,
    {
        self.tags = v;
    }

    pub fn mut_tags(&mut self) -> (r: &mut Vec<String>)
        ensures
            *r == old(self).tags,
            final(self).tags == *final(r),
            final(self).time == old(self).time,
            final(self).state == old(self).state,
            final(self).service == old(self).service,
            final(self).host == old(self).host,
            final(self).description == old(self).description,
            final(self).once == old(self).once,
            final(self).ttl == old(self).ttl,
    {
        &mut self.tags
    }

    pub fn take_tags(&mut self) -> (r: Vec<String>)
        ensures
            r == old(self).tags,
            final(self).tags@.len() == 0,
            final(self).time == old(self).time,
            final(self).state == old(self).state,
            final(self).service == old(self).service,
            final(self).host == old(self).host,
            final(self).description == old(self).description,
            final(self).once == old(self).once,
            final(self).ttl == old(self).ttl,
    {
        let mut v = Vec::new();
        std::mem::swap(&mut self.tags, &mut v);
        v
    }

    pub fn get_tags(&self) -> (r: &[String])
        ensures
            r@ == self.tags@,
    {
        self.tags.as_slice()
    }

    pub fn clear_ttl(&mut self)
        ensures
            final(self).ttl is None,
            final(self).time == old(self).time,
            final(self).state == old(self).state,
            final(self).service == old(self).service,
            final(self).host == old(self).host,
            final(self).description == old(self).description,
            final(self).once == old(self).once,
            final(self).tags == old(self).tags,
    {
        self.ttl = None;
    }

    pub fn has_ttl(&self) -> (r: bool)
        ensures
            r == self.ttl is Some,
    {
        self.ttl.is_some()
    }

    pub fn set_ttl_bits(&mut self, v: u32)
        ensures
            final(self).ttl == Some(v),
            final(self).time == old(self).time,
            final(self).state == old(self).state,
            final(self).service == old(self).service,
            final(self).host == old(self).host,
            final(self).description == old(self).description,
            final(self).once == old(self).once,
            final(self).tags == old(self).tags,
    {
        self.ttl = Some(v);
    }

    pub fn get_ttl_bits(&self) -> (r: u32)
        ensures
            r == u32_or_zero(self.ttl),
    {
        match self.ttl {
            Some(v) => v,
            None => 0,
        }
    }
}

/// One telemetry sample.
#[derive(Clone, Debug)]
pub struct Event {
    /// The timestamp, in seconds.
    pub time: Option<i64>,
    /// The state.
    pub state: Option<String>,
    /// The service name.
    pub service: Option<String>,
    /// The host name.
    pub host: Option<String>,
    /// The description.
    pub description: Option<String>,
    /// The tags.
    pub tags: Vec<String>,
    /// The time to live, as the bits of an `f32`.
    pub ttl: Option<u32>,
    /// The attributes.
    pub attributes: Vec<Attribute>,
    /// The integer metric.
    pub metric_sint64: Option<i64>,
    /// The metric as the bits of an `f64`.
    pub metric_d: Option<u64>,
    /// The metric as the bits of an `f32`.
    pub metric_f: Option<u32>,
}

/// The mathematical model of a [`Event`]: strings as characters, nested messages as models.
pub struct EventV {
    pub time: Option<i64>,
    pub state: Option<Seq<char>>,
    pub service: Option<Seq<char>>,
    pub host: Option<Seq<char>>,
    pub description: Option<Seq<char>>,
    pub tags: Seq<Seq<char>>,
    pub ttl: Option<u32>,
    pub attributes: Seq<AttributeV>,
    pub metric_sint64: Option<i64>,
    pub metric_d: Option<u64>,
    pub metric_f: Option<u32>,
}

impl View for Event {
    type V = EventV;

    open spec fn view(&self) -> EventV {
        EventV {
            time: self.time,
            state: match self.state { Some(s) => Some(s@), None => None },
            service: match self.service { Some(s) => Some(s@), None => None },
            host: match self.host { Some(s) => Some(s@), None => None },
            description: match self.description { Some(s) => Some(s@), None => None },
            tags: self.tags@.map_values(|s: String| s@),
            ttl: self.ttl,
            attributes: self.attributes@.map_values(|x: Attribute| x@),
            metric_sint64: self.metric_sint64,
            metric_d: self.metric_d,
            metric_f: self.metric_f,
        }
    }
}

impl Event {
    /// A value with every field unset or empty.
    pub fn new() -> (r: Event)
        ensures
            r.is_empty(),
    {
        Event {
            time: None,
            state: None,
            service: None,
            host: None,
            description: None,
            tags: Vec::new(),
            ttl: None,
            attributes: Vec::new(),
            metric_sint64: None,
            metric_d: None,
            metric_f: None,
        }
    }

    /// The value every unset field reads as: the same as [`Event::new`].
    pub fn default_instance() -> (r: Event)
        ensures
            r.is_empty(),
    {
        Event::new()
    }

    /// Unsets or empties every field.
    pub fn clear(&mut self)
        ensures
            final(self).is_empty(),
    {
        self.time = None;
        self.state = None;
        self.service = None;
        self.host = None;
        self.description = None;
        self.tags = Vec::new();
        self.ttl = None;
        self.attributes = Vec::new();
        self.metric_sint64 = None;
        self.metric_d = None;
        self.metric_f = None;
    }

    /// Every field is unset or empty.
    pub open spec fn is_empty(&self) -> bool {
        self.time is None
        && self.state is None
        && self.service is None
        && self.host is None
        && self.description is None
        && self.tags@.len() == 0
        && self.ttl is None
        && self.attributes@.len() == 0
        && self.metric_sint64 is None
        && self.metric_d is None
        && self.metric_f is None
    }

    pub fn clear_time(&mut self)
        ensures
            final(self).time is None,
            final(self).state == old(self).state,
            final(self).service == old(self).service,
            final(self).host == old(self).host,
            final(self).description == old(self).description,
            final(self).tags == old(self).tags,
            final(self).ttl == old(self).ttl,
            final(self).attributes == old(self).attributes,
            final(self).metric_sint64 == old(self).metric_sint64,
            final(self).metric_d == old(self).metric_d,
            final(self).metric_f == old(self).metric_f,
    {
        self.time = None;
    }

    pub fn has_time(&self) -> (r: bool)
        ensures
            r == self.time is Some,
    {
        self.time.is_some()
    }

    pub fn set_time(&mut self, v: i64)
        ensures
            final(self).time == Some(v),
            final(self).state == old(self).state,
            final(self).service == old(self).service,
            final(self).host == old(self).host,
            final(self).description == old(self).description,
            final(self).tags == old(self).tags,
            final(self).ttl == old(self).ttl,
            final(self).attributes == old(self).attributes,
            final(self).metric_sint64 == old(self).metric_sint64,
            final(self).metric_d == old(self).metric_d,
            final(self).metric_f == old(self).metric_f,
    {
        self.time = Some(v);
    }

    pub fn get_time(&self) -> (r: i64)
        ensures
            r == i64_or_zero(self.time),
    {
        match self.time {
            Some(v) => v,
            None => 0,
        }
    }

    pub fn clear_state(&mut self)
        ensures
            final(self).state is None,
            final(self).time == old(self).time,
            final(self).service == old(self).service,
            final(self).host == old(self).host,
            final(self).description == old(self).description,
            final(self).tags == old(self).tags,
            final(self).ttl == old(self).ttl,
            final(self).attributes == old(self).attributes,
            final(self).metric_sint64 == old(self).metric_sint64,
            final(self).metric_d == old(self).metric_d,
            final(self).metric_f == old(self).metric_f,
    {
        self.state = None;
    }

    pub fn has_state(&self) -> (r: bool)
        ensures
            r == self.state is Some,
    {
        self.state.is_some()
    }

    pub fn set_state(&mut self, v: String)
        ensures
            final(self).state == Some(v),
            final(self).time == old(self).time,
            final(self).service == old(self).service,
            final(self).host == old(self).host,
            final(self).description == old(self).description,
            final(self).tags == old(self).tags,
            final(self).ttl == old(self).ttl,
            final(self).attributes == old(self).attributes,
            final(self).metric_sint64 == old(self).metric_sint64,
            final(self).metric_d == old(self).metric_d,
            final(self).metric_f == old(self).metric_f,
    {
        self.state = Some(v);
    }

    pub fn mut_state(&mut self) -> (r: &mut String)
        ensures
            old(self).state matches Some(v) ==> *r == v,
            old(self).state is None ==> r@.len() == 0,
            final(self).state == Some(*final(r)),
            final(self).time == old(self).time,
            final(self).service == old(self).service,
            final(self).host == old(self).host,
            final(self).description == old(self).description,
            final(self).tags == old(self).tags,
            final(self).ttl == old(self).ttl,
            final(self).attributes == old(self).attributes,
            final(self).metric_sint64 == old(self).metric_sint64,
            final(self).metric_d == old(self).metric_d,
            final(self).metric_f == old(self).metric_f,
    {
        self.state.get_or_insert(String::new())
    }

    pub fn take_state(&mut self) -> (r: String)
        ensures
            old(self).state matches Some(v) ==> r == v,
            old(self).state is None ==> r@.len() == 0,
            final(self).state is None,
            final(self).time == old(self).time,
            final(self).service == old(self).service,
            final(self).host == old(self).host,
            final(self).description == old(self).description,
            final(self).tags == old(self).tags,
            final(self).ttl == old(self).ttl,
            final(self).attributes == old(self).attributes,
            final(self).metric_sint64 == old(self).metric_sint64,
            final(self).metric_d == old(self).metric_d,
            final(self).metric_f == old(self).metric_f,
    {
        match self.state.take() {
            Some(v) => v,
            None => String::new(),
        }
    }

    pub fn get_state(&self) -> (r: &str)
        ensures
            r@ == text_or_empty(self.state),
    {
        match &self.state {
            Some(v) => v.as_str(),
            None => empty_str(),
        }
    }

    pub fn clear_service(&mut self)
        ensures
            final(self).service is None,
            final(self).time == old(self).time,
            final(self).state == old(self).state,
            final(self).host == old(self).host,
            final(self).description == old(self).description,
            final(self).tags == old(self).tags,
            final(self).ttl == old(self).ttl,
            final(self).attributes == old(self).attributes,
            final(self).metric_sint64 == old(self).metric_sint64,
            final(self).metric_d == old(self).metric_d,
            final(self).metric_f == old(self).metric_f,
    {
        self.service = None;
    }

    pub fn has_service(&self) -> (r: bool)
        ensures
            r == self.service is Some,
    {
        self.service.is_some()
    }

    pub fn set_service(&mut self, v: String)
        ensures
            final(self).service == Some(v),
            final(self).time == old(self).time,
            final(self).state == old(self).state,
            final(self).host == old(self).host,
            final(self).description == old(self).description,
            final(self).tags == old(self).tags,
            final(self).ttl == old(self).ttl,
            final(self).attributes == old(self).attributes,
            final(self).metric_sint64 == old(self).metric_sint64,
            final(self).metric_d == old(self).metric_d,
            final(self).metric_f == old(self).metric_f,
    {
        self.service = Some(v);
    }

    pub fn mut_service(&mut self) -> (r: &mut String)
        ensures
            old(self).service matches Some(v) ==> *r == v,
            old(self).service is None ==> r@.len() == 0,
            final(self).service == Some(*final(r)),
            final(self).time == old(self).time,
            final(self).state == old(self).state,
            final(self).host == old(self).host,
            final(self).description == old(self).description,
            final(self).tags == old(self).tags,
            final(self).ttl == old(self).ttl,
            final(self).attributes == old(self).attributes,
            final(self).metric_sint64 == old(self).metric_sint64,
            final(self).metric_d == old(self).metric_d,
            final(self).metric_f == old(self).metric_f,
    {
        self.service.get_or_insert(String::new())
    }

    pub fn take_service(&mut self) -> (r: String)
        ensures
            old(self).service matches Some(v) ==> r == v,
            old(self).service is None ==> r@.len() == 0,
            final(self).service is None,
            final(self).time == old(self).time,
            final(self).state == old(self).state,
            final(self).host == old(self).host,
            final(self).description == old(self).description,
            final(self).tags == old(self).tags,
            final(self).ttl == old(self).ttl,
            final(self).attributes == old(self).attributes,
            final(self).metric_sint64 == old(self).metric_sint64,
            final(self).metric_d == old(self).metric_d,
            final(self).metric_f == old(self).metric_f,
    {
        match self.service.take() {
            Some(v) => v,
            None => String::new(),
        }
    }

    pub fn get_service(&self) -> (r: &str)
        ensures
            r@ == text_or_empty(self.service),
    {
        match &self.service {
            Some(v) => v.as_str(),
            None => empty_str(),
        }
    }

    pub fn clear_host(&mut self)
        ensures
            final(self).host is None,
            final(self).time == old(self).time,
            final(self).state == old(self).state,
            final(self).service == old(self).service,
            final(self).description == old(self).description,
            final(self).tags == old(self).tags,
            final(self).ttl == old(self).ttl,
            final(self).attributes == old(self).attributes,
            final(self).metric_sint64 == old(self).metric_sint64,
            final(self).metric_d == old(self).metric_d,
            final(self).metric_f == old(self).metric_f,
    {
        self.host = None;
    }

    pub fn has_host(&self) -> (r: bool)
        ensures
            r == self.host is Some,
    {
        self.host.is_some()
    }

    pub fn set_host(&mut self, v: String)
        ensures
            final(self).host == Some(v),
            final(self).time == old(self).time,
            final(self).state == old(self).state,
            final(self).service == old(self).service,
            final(self).description == old(self).description,
            final(self).tags == old(self).tags,
            final(self).ttl == old(self).ttl,
            final(self).attributes == old(self).attributes,
            final(self).metric_sint64 == old(self).metric_sint64,
            final(self).metric_d == old(self).metric_d,
            final(self).metric_f == old(self).metric_f,
    {
        self.host = Some(v);
    }

    pub fn mut_host(&mut self) -> (r: &mut String)
        ensures
            old(self).host matches Some(v) ==> *r == v,
            old(self).host is None ==> r@.len() == 0,
            final(self).host == Some(*final(r)),
            final(self).time == old(self).time,
            final(self).state == old(self).state,
            final(self).service == old(self).service,
            final(self).description == old(self).description,
            final(self).tags == old(self).tags,
            final(self).ttl == old(self).ttl,
            final(self).attributes == old(self).attributes,
            final(self).metric_sint64 == old(self).metric_sint64,
            final(self).metric_d == old(self).metric_d,
            final(self).metric_f == old(self).metric_f,
    {
        self.host.get_or_insert(String::new())
    }

    pub fn take_host(&mut self) -> (r: String)
        ensures
            old(self).host matches Some(v) ==> r == v,
            old(self).host is None ==> r@.len() == 0,
            final(self).host is None,
            final(self).time == old(self).time,
            final(self).state == old(self).state,
            final(self).service == old(self).service,
            final(self).description == old(self).description,
            final(self).tags == old(self).tags,
            final(self).ttl == old(self).ttl,
            final(self).attributes == old(self).attributes,
            final(self).metric_sint64 == old(self).metric_sint64,
            final(self).metric_d == old(self).metric_d,
            final(self).metric_f == old(self).metric_f,
    {
        match self.host.take() {
            Some(v) => v,
            None => String::new(),
        }
    }

    pub fn get_host(&self) -> (r: &str)
        ensures
            r@ == text_or_empty(self.host),
    {
        match &self.host {
            Some(v) => v.as_str(),
            None => empty_str(),
        }
    }

    pub fn clear_description(&mut self)
        ensures
            final(self).description is None,
            final(self).time == old(self).time,
            final(self).state == old(self).state,
            final(self).service == old(self).service,
            final(self).host == old(self).host,
            final(self).tags == old(self).tags,
            final(self).ttl == old(self).ttl,
            final(self).attributes == old(self).attributes,
            final(self).metric_sint64 == old(self).metric_sint64,
            final(self).metric_d == old(self).metric_d,
            final(self).metric_f == old(self).metric_f,
    {
        self.description = None;
    }

    pub fn has_description(&self) -> (r: bool)
        ensures
            r == self.description is Some,
    {
        self.description.is_some()
    }

    pub fn set_description(&mut self, v: String)
        ensures
            final(self).description == Some(v),
            final(self).time == old(self).time,
            final(self).state == old(self).state,
            final(self).service == old(self).service,
            final(self).host == old(self).host,
            final(self).tags == old(self).tags,
            final(self).ttl == old(self).ttl,
            final(self).attributes == old(self).attributes,
            final(self).metric_sint64 == old(self).metric_sint64,
            final(self).metric_d == old(self).metric_d,
            final(self).metric_f == old(self).metric_f,
    {
        self.description = Some(v);
    }

    pub fn mut_description(&mut self) -> (r: &mut String)
        ensures
            old(self).description matches Some(v) ==> *r == v,
            old(self).description is None ==> r@.len() == 0,
            final(self).description == Some(*final(r)),
            final(self).time == old(self).time,
            final(self).state == old(self).state,
            final(self).service == old(self).service,
            final(self).host == old(self).host,
            final(self).tags == old(self).tags,
            final(self).ttl == old(self).ttl,
            final(self).attributes == old(self).attributes,
            final(self).metric_sint64 == old(self).metric_sint64,
            final(self).metric_d == old(self).metric_d,
            final(self).metric_f == old(self).metric_f,
    {
        self.description.get_or_insert(String::new())
    }

    pub fn take_description(&mut self) -> (r: String)
        ensures
            old(self).description matches Some(v) ==> r == v,
            old(self).description is None ==> r@.len() == 0,
            final(self).description is None,
            final(self).time == old(self).time,
            final(self).state == old(self).state,
            final(self).service == old(self).service,
            final(self).host == old(self).host,
            final(self).tags == old(self).tags,
            final(self).ttl == old(self).ttl,
            final(self).attributes == old(self).attributes,
            final(self).metric_sint64 == old(self).metric_sint64,
            final(self).metric_d == old(self).metric_d,
            final(self).metric_f == old(self).metric_f,
    {
        match self.description.take() {
            Some(v) => v,
            None => String::new(),
        }
    }

    pub fn get_description(&self) -> (r: &str)
        ensures
            r@ == text_or_empty(self.description),
    {
        match &self.description {
            Some(v) => v.as_str(),
            None => empty_str(),
        }
    }

    pub fn clear_tags(&mut self)
        ensures
            final(self).tags@.len() == 0,
            final(self).time == old(self).time,
            final(self).state == old(self).state,
            final(self).service == old(self).service,
            final(self).host == old(self).host,
            final(self).description == old(self).description,
            final(self).ttl == old(self).ttl,
            final(self).attributes == old(self).attributes,
            final(self).metric_sint64 == old(self).metric_sint64,
            final(self).metric_d == old(self).metric_d,
            final(self).metric_f == old(self).metric_f,
    {
        self.tags = Vec::new();
    }

    pub fn set_tags(&mut self, v: Vec<String>)
        ensures
            final(self).tags == v,
            final(self).time == old(self).time,
            final(self).state == old(self).state,
            final(self).service == old(self).service,
            final(self).host == old(self).host,
            final(self).description == old(self).description,
            final(self).ttl == old(self).ttl,
            final(self).attributes == old(self).attributes,
            final(self).metric_sint64 == old(self).metric_sint64,
            final(self).metric_d == old(self).metric_d,
            final(self).metric_f == old(self).metric_f,
    {
        self.tags = v;
    }

    pub fn mut_tags(&mut self) -> (r: &mut Vec<String>)
        ensures
            *r == old(self).tags,
            final(self).tags == *final(r),
            final(self).time == old(self).time,
            final(self).state == old(self).state,
            final(self).service == old(self).service,
            final(self).host == old(self).host,
            final(self).description == old(self).description,
            final(self).ttl == old(self).ttl,
            final(self).attributes == old(self).attributes,
            final(self).metric_sint64 == old(self).metric_sint64,
            final(self).metric_d == old(self).metric_d,
            final(self).metric_f == old(self).metric_f,
    {
        &mut self.tags
    }

    pub fn take_tags(&mut self) -> (r: Vec<String>)
        ensures
            r == old(self).tags,
            final(self).tags@.len() == 0,
            final(self).time == old(self).time,
            final(self).state == old(self).state,
            final(self).service == old(self).service,
            final(self).host == old(self).host,
            final(self).description == old(self).description,
            final(self).ttl == old(self).ttl,
            final(self).attributes == old(self).attributes,
            final(self).metric_sint64 == old(self).metric_sint64,
            final(self).metric_d == old(self).metric_d,
            final(self).metric_f == old(self).metric_f,
    {
        let mut v = Vec::new();
        std::mem::swap(&mut self.tags, &mut v);
        v
    }

    pub fn get_tags(&self) -> (r: &[String])
        ensures
            r@ == self.tags@,
    {
        self.tags.as_slice()
    }

    pub fn clear_ttl(&mut self)
        ensures
            final(self).ttl is None,
            final(self).time == old(self).time,
            final(self).state == old(self).state,
            final(self).service == old(self).service,
            final(self).host == old(self).host,
            final(self).description == old(self).description,
            final(self).tags == old(self).tags,
            final(self).attributes == old(self).attributes,
            final(self).metric_sint64 == old(self).metric_sint64,
            final(self).metric_d == old(self).metric_d,
            final(self).metric_f == old(self).metric_f,
    {
        self.ttl = None;
    }

    pub fn has_ttl(&self) -> (r: bool)
        ensures
            r == self.ttl is Some,
    {
        self.ttl.is_some()
    }

    pub fn set_ttl_bits(&mut self, v: u32)
        ensures
            final(self).ttl == Some(v),
            final(self).time == old(self).time,
            final(self).state == old(self).state,
            final(self).service == old(self).service,
            final(self).host == old(self).host,
            final(self).description == old(self).description,
            final(self).tags == old(self).tags,
            final(self).attributes == old(self).attributes,
            final(self).metric_sint64 == old(self).metric_sint64,
            final(self).metric_d == old(self).metric_d,
            final(self).metric_f == old(self).metric_f,
    {
        self.ttl = Some(v);
    }

    pub fn get_ttl_bits(&self) -> (r: u32)
        ensures
            r == u32_or_zero(self.ttl),
    {
        match self.ttl {
            Some(v) => v,
            None => 0,
        }
    }

    pub fn clear_attributes(&mut self)
        ensures
            final(self).attributes@.len() == 0,
            final(self).time == old(self).time,
            final(self).state == old(self).state,
            final(self).service == old(self).service,
            final(self).host == old(self).host,
            final(self).description == old(self).description,
            final(self).tags == old(self).tags,
            final(self).ttl == old(self).ttl,
            final(self).metric_sint64 == old(self).metric_sint64,
            final(self).metric_d == old(self).metric_d,
            final(self).metric_f == old(self).metric_f,
    {
        self.attributes = Vec::new();
    }

    pub fn set_attributes(&mut self, v: Vec<Attribute>)
        ensures
            final(self).attributes == v,
            final(self).time == old(self).time,
            final(self).state == old(self).state,
            final(self).service == old(self).service,
            final(self).host == old(self).host,
            final(self).description == old(self).description,
            final(self).tags == old(self).tags,
            final(self).ttl == old(self).ttl,
            final(self).metric_sint64 == old(self).metric_sint64,
            final(self).metric_d == old(self).metric_d,
            final(self).metric_f == old(self).metric_f,
    {
        self.attributes = v;
    }

    pub fn mut_attributes(&mut self) -> (r: &mut Vec<Attribute>)
        ensures
            *r == old(self).attributes,
            final(self).attributes == *final(r),
            final(self).time == old(self).time,
            final(self).state == old(self).state,
            final(self).service == old(self).service,
            final(self).host == old(self).host,
            final(self).description == old(self).description,
            final(self).tags == old(self).tags,
            final(self).ttl == old(self).ttl,
            final(self).metric_sint64 == old(self).metric_sint64,
            final(self).metric_d == old(self).metric_d,
            final(self).metric_f == old(self).metric_f,
    {
        &mut self.attributes
    }

    pub fn take_attributes(&mut self) -> (r: Vec<Attribute>)
        ensures
            r == old(self).attributes,
            final(self).attributes@.len() == 0,
            final(self).time == old(self).time,
            final(self).state == old(self).state,
            final(self).service == old(self).service,
            final(self).host == old(self).host,
            final(self).description == old(self).description,
            final(self).tags == old(self).tags,
            final(self).ttl == old(self).ttl,
            final(self).metric_sint64 == old(self).metric_sint64,
            final(self).metric_d == old(self).metric_d,
            final(self).metric_f == old(self).metric_f,
    {
        let mut v = Vec::new();
        std::mem::swap(&mut self.attributes, &mut v);
        v
    }

    pub fn get_attributes(&self) -> (r: &[Attribute])
        ensures
            r@ == self.attributes@,
    {
        self.attributes.as_slice()
    }

    pub fn clear_metric_sint64(&mut self)
        ensures
            final(self).metric_sint64 is None,
            final(self).time == old(self).time,
            final(self).state == old(self).state,
            final(self).service == old(self).service,
            final(self).host == old(self).host,
            final(self).description == old(self).description,
            final(self).tags == old(self).tags,
            final(self).ttl == old(self).ttl,
            final(self).attributes == old(self).attributes,
            final(self).metric_d == old(self).metric_d,
            final(self).metric_f == old(self).metric_f,
    {
        self.metric_sint64 = None;
    }

    pub fn has_metric_sint64(&self) -> (r: bool)
        ensures
            r == self.metric_sint64 is Some,
    {
        self.metric_sint64.is_some()
    }

    pub fn set_metric_sint64(&mut self, v: i64)
        ensures
            final(self).metric_sint64 == Some(v),
            final(self).time == old(self).time,
            final(self).state == old(self).state,
            final(self).service == old(self).service,
            final(self).host == old(self).host,
            final(self).description == old(self).description,
            final(self).tags == old(self).tags,
            final(self).ttl == old(self).ttl,
            final(self).attributes == old(self).attributes,
            final(self).metric_d == old(self).metric_d,
            final(self).metric_f == old(self).metric_f,
    {
        self.metric_sint64 = Some(v);
    }

    pub fn get_metric_sint64(&self) -> (r: i64)
        ensures
            r == i64_or_zero(self.metric_sint64),
    {
        match self.metric_sint64 {
            Some(v) => v,
            None => 0,
        }
    }

    pub fn clear_metric_d(&mut self)
        ensures
            final(self).metric_d is None,
            final(self).time == old(self).time,
            final(self).state == old(self).state,
            final(self).service == old(self).service,
            final(self).host == old(self).host,
            final(self).description == old(self).description,
            final(self).tags == old(self).tags,
            final(self).ttl == old(self).ttl,
            final(self).attributes == old(self).attributes,
            final(self).metric_sint64 == old(self).metric_sint64,
            final(self).metric_f == old(self).metric_f,
    {
        self.metric_d = None;
    }

    pub fn has_metric_d(&self) -> (r: bool)
        ensures
            r == self.metric_d is Some,
    {
        self.metric_d.is_some()
    }

    pub fn set_metric_d_bits(&mut self, v: u64)
        ensures
            final(self).metric_d == Some(v),
            final(self).time == old(self).time,
            final(self).state == old(self).state,
            final(self).service == old(self).service,
            final(self).host == old(self).host,
            final(self).description == old(self).description,
            final(self).tags == old(self).tags,
            final(self).ttl == old(self).ttl,
            final(self).attributes == old(self).attributes,
            final(self).metric_sint64 == old(self).metric_sint64,
            final(self).metric_f == old(self).metric_f,
    {
        self.metric_d = Some(v);
    }

    pub fn get_metric_d_bits(&self) -> (r: u64)
        ensures
            r == u64_or_zero(self.metric_d),
    {
        match self.metric_d {
            Some(v) => v,
            None => 0,
        }
    }

    pub fn clear_metric_f(&mut self)
        ensures
            final(self).metric_f is None,
            final(self).time == old(self).time,
            final(self).state == old(self).state,
            final(self).service == old(self).service,
            final(self).host == old(self).host,
            final(self).description == old(self).description,
            final(self).tags == old(self).tags,
            final(self).ttl == old(self).ttl,
            final(self).attributes == old(self).attributes,
            final(self).metric_sint64 == old(self).metric_sint64,
            final(self).metric_d == old(self).metric_d,
    {
        self.metric_f = None;
    }

    pub fn has_metric_f(&self) -> (r: bool)
        ensures
            r == self.metric_f is Some,
    {
        self.metric_f.is_some()
    }

    pub fn set_metric_f_bits(&mut self, v: u32)
        ensures
            final(self).metric_f == Some(v),
            final(self).time == old(self).time,
            final(self).state == old(self).state,
            final(self).service == old(self).service,
            final(self).host == old(self).host,
            final(self).description == old(self).description,
            final(self).tags == old(self).tags,
            final(self).ttl == old(self).ttl,
            final(self).attributes == old(self).attributes,
            final(self).metric_sint64 == old(self).metric_sint64,
            final(self).metric_d == old(self).metric_d,
    {
        self.metric_f = Some(v);
    }

    pub fn get_metric_f_bits(&self) -> (r: u32)
        ensures
            r == u32_or_zero(self.metric_f),
    {
        match self.metric_f {
            Some(v) => v,
            None => 0,
        }
    }
}

/// A query expression in the server's query language.
#[derive(Clone, Debug)]
pub struct Query {
    /// The query expression.
    pub string: Option<String>,
}

/// The mathematical model of a [`Query`]: strings as characters, nested messages as models.
pub struct QueryV {
    pub string: Option<Seq<char>>,
}

impl View for Query {
    type V = QueryV;

    open spec fn view(&self) -> QueryV {
        QueryV {
            string: match self.string { Some(s) => Some(s@), None => None },
        }
    }
}

impl Query {
    /// A value with every field unset or empty.
    pub fn new() -> (r: Query)
        ensures
            r.is_empty(),
    {
        Query {
            string: None,
        }
    }

    /// The value every unset field reads as: the same as [`Query::new`].
    pub fn default_instance() -> (r: Query)
        ensures
            r.is_empty(),
    {
        Query::new()
    }

    /// Unsets or empties every field.
    pub fn clear(&mut self)
        ensures
            final(self).is_empty(),
    {
        self.string = None;
    }

    /// Every field is unset or empty.
    pub open spec fn is_empty(&self) -> bool {
        self.string is None
    }

    pub fn clear_string(&mut self)
        ensures
            final(self).string is None,
    {
        self.string = None;
    }

    pub fn has_string(&self) -> (r: bool)
        ensures
            r == self.string is Some,
    {
        self.string.is_some()
    }

    pub fn set_string(&mut self, v: String)
        ensures
            final(self).string == Some(v),
    {
        self.string = Some(v);
    }

    pub fn mut_string(&mut self) -> (r: &mut String)
        ensures
            old(self).string matches Some(v) ==> *r == v,
            old(self).string is None ==> r@.len() == 0,
            final(self).string == Some(*final(r)),
    {
        self.string.get_or_insert(String::new())
    }

    pub fn take_string(&mut self) -> (r: String)
        ensures
            old(self).string matches Some(v) ==> r == v,
            old(self).string is None ==> r@.len() == 0,
            final(self).string is None,
    {
        match self.string.take() {
            Some(v) => v,
            None => String::new(),
        }
    }

    pub fn get_string(&self) -> (r: &str)
        ensures
            r@ == text_or_empty(self.string),
    {
        match &self.string {
            Some(v) => v.as_str(),
            None => empty_str(),
        }
    }
}

/// The envelope of every request and response.
#[derive(Clone, Debug)]
pub struct Msg {
    /// The status flag.
    pub ok: Option<bool>,
    /// The error text.
    pub error: Option<String>,
    /// The legacy results.
    pub states: Vec<State>,
    /// The query.
    pub query: Option<Query>,
    /// The events.
    pub events: Vec<Event>,
}

/// The mathematical model of a [`Msg`]: strings as characters, nested messages as models.
pub struct MsgV {
    pub ok: Option<bool>,
    pub error: Option<Seq<char>>,
    pub states: Seq<StateV>,
    pub query: Option<QueryV>,
    pub events: Seq<EventV>,
}

impl View for Msg {
    type V = MsgV;

    open spec fn view(&self) -> MsgV {
        MsgV {
            ok: self.ok,
            error: match self.error { Some(s) => Some(s@), None => None },
            states: self.states@.map_values(|x: State| x@),
            query: match self.query { Some(x) => Some(x@), None => None },
            events: self.events@.map_values(|x: Event| x@),
        }
    }
}

impl Msg {
    /// A value with every field unset or empty.
    pub fn new() -> (r: Msg)
        ensures
            r.is_empty(),
    {
        Msg {
            ok: None,
            error: None,
            states: Vec::new(),
            query: None,
            events: Vec::new(),
        }
    }

    /// The value every unset field reads as: the same as [`Msg::new`].
    pub fn default_instance() -> (r: Msg)
        ensures
            r.is_empty(),
    {
        Msg::new()
    }

    /// Unsets or empties every field.
    pub fn clear(&mut self)
        ensures
            final(self).is_empty(),
    {
        self.ok = None;
        self.error = None;
        self.states = Vec::new();
        self.query = None;
        self.events = Vec::new();
    }

    /// Every field is unset or empty.
    pub open spec fn is_empty(&self) -> bool {
        self.ok is None
        && self.error is None
        && self.states@.len() == 0
        && self.query is None
        && self.events@.len() == 0
    }

    pub fn clear_ok(&mut self)
        ensures
            final(self).ok is None,
            final(self).error == old(self).error,
            final(self).states == old(self).states,
            final(self).query == old(self).query,
            final(self).events == old(self).events,
    {
        self.ok = None;
    }

    pub fn has_ok(&self) -> (r: bool)
        ensures
            r == self.ok is Some,
    {
        self.ok.is_some()
    }

    pub fn set_ok(&mut self, v: bool)
        ensures
            final(self).ok == Some(v),
            final(self).error == old(self).error,
            final(self).states == old(self).states,
            final(self).query == old(self).query,
            final(self).events == old(self).events,
    {
        self.ok = Some(v);
    }

    pub fn get_ok(&self) -> (r: bool)
        ensures
            r == bool_or_false(self.ok),
    {
        match self.ok {
            Some(v) => v,
            None => false,
        }
    }

    pub fn clear_error(&mut self)
        ensures
            final(self).error is None,
            final(self).ok == old(self).ok,
            final(self).states == old(self).states,
            final(self).query == old(self).query,
            final(self).events == old(self).events,
    {
        self.error = None;
    }

    pub fn has_error(&self) -> (r: bool)
        ensures
            r == self.error is Some,
    {
        self.error.is_some()
    }

    pub fn set_error(&mut self, v: String)
        ensures
            final(self).error == Some(v),
            final(self).ok == old(self).ok,
            final(self).states == old(self).states,
            final(self).query == old(self).query,
            final(self).events == old(self).events,
    {
        self.error = Some(v);
    }

    pub fn mut_error(&mut self) -> (r: &mut String)
        ensures
            old(self).error matches Some(v) ==> *r == v,
            old(self).error is None ==> r@.len() == 0,
            final(self).error == Some(*final(r)),
            final(self).ok == old(self).ok,
            final(self).states == old(self).states,
            final(self).query == old(self).query,
            final(self).events == old(self).events,
    {
        self.error.get_or_insert(String::new())
    }

    pub fn take_error(&mut self) -> (r: String)
        ensures
            old(self).error matches Some(v) ==> r == v,
            old(self).error is None ==> r@.len() == 0,
            final(self).error is None,
            final(self).ok == old(self).ok,
            final(self).states == old(self).states,
            final(self).query == old(self).query,
            final(self).events == old(self).events,
    {
        match self.error.take() {
            Some(v) => v,
            None => String::new(),
        }
    }

    pub fn get_error(&self) -> (r: &str)
        ensures
            r@ == text_or_empty(self.error),
    {
        match &self.error {
            Some(v) => v.as_str(),
            None => empty_str(),
        }
    }

    pub fn clear_states(&mut self)
        ensures
            final(self).states@.len() == 0,
            final(self).ok == old(self).ok,
            final(self).error == old(self).error,
            final(self).query == old(self).query,
            final(self).events == old(self).events,
    {
        self.states = Vec::new();
    }

    pub fn set_states(&mut self, v: Vec<State>)
        ensures
            final(self).states == v,
            final(self).ok == old(self).ok,
            final(self).error == old(self).error,
            final(self).query == old(self).query,
            final(self).events == old(self).events,
    {
        self.states = v;
    }

    pub fn mut_states(&mut self) -> (r: &mut Vec<State>)
        ensures
            *r == old(self).states,
            final(self).states == *final(r),
            final(self).ok == old(self).ok,
            final(self).error == old(self).error,
            final(self).query == old(self).query,
            final(self).events == old(self).events,
    {
        &mut self.states
    }

    pub fn take_states(&mut self) -> (r: Vec<State>)
        ensures
            r == old(self).states,
            final(self).states@.len() == 0,
            final(self).ok == old(self).ok,
            final(self).error == old(self).error,
            final(self).query == old(self).query,
            final(self).events == old(self).events,
    {
        let mut v = Vec::new();
        std::mem::swap(&mut self.states, &mut v);
        v
    }

    pub fn get_states(&self) -> (r: &[State])
        ensures
            r@ == self.states@,
    {
        self.states.as_slice()
    }

    pub fn clear_query(&mut self)
        ensures
            final(self).query is None,
            final(self).ok == old(self).ok,
            final(self).error == old(self).error,
            final(self).states == old(self).states,
            final(self).events == old(self).events,
    {
        self.query = None;
    }

    pub fn has_query(&self) -> (r: bool)
        ensures
            r == self.query is Some,
    {
        self.query.is_some()
    }

    pub fn set_query(&mut self, v: Query)
        ensures
            final(self).query == Some(v),
            final(self).ok == old(self).ok,
            final(self).error == old(self).error,
            final(self).states == old(self).states,
            final(self).events == old(self).events,
    {
        self.query = Some(v);
    }

    pub fn mut_query(&mut self) -> (r: &mut Query)
        ensures
            old(self).query matches Some(v) ==> *r == v,
            old(self).query is None ==> r.is_empty(),
            final(self).query == Some(*final(r)),
            final(self).ok == old(self).ok,
            final(self).error == old(self).error,
            final(self).states == old(self).states,
            final(self).events == old(self).events,
    {
        self.query.get_or_insert(Query::new())
    }

    pub fn take_query(&mut self) -> (r: Query)
        ensures
            old(self).query matches Some(v) ==> r == v,
            old(self).query is None ==> r.is_empty(),
            final(self).query is None,
            final(self).ok == old(self).ok,
            final(self).error == old(self).error,
            final(self).states == old(self).states,
            final(self).events == old(self).events,
    {
        match self.query.take() {
            Some(v) => v,
            None => Query::new(),
        }
    }

    pub fn get_query(&self) -> (r: Option<&Query>)
        ensures
            r is Some <==> self.query is Some,
            r matches Some(q) ==> self.query == Some(*q),
    {
        self.query.as_ref()
    }

    pub fn clear_events(&mut self)
        ensures
            final(self).events@.len() == 0,
            final(self).ok == old(self).ok,
            final(self).error == old(self).error,
            final(self).states == old(self).states,
            final(self).query == old(self).query,
    {
        self.events = Vec::new();
    }

    pub fn set_events(&mut self, v: Vec<Event>)
        ensures
            final(self).events == v,
            final(self).ok == old(self).ok,
            final(self).error == old(self).error,
            final(self).states == old(self).states,
            final(self).query == old(self).query,
    {
        self.events = v;
    }

    pub fn mut_events(&mut self) -> (r: &mut Vec<Event>)
        ensures
            *r == old(self).events,
            final(self).events == *final(r),
            final(self).ok == old(self).ok,
            final(self).error == old(self).error,
            final(self).states == old(self).states,
            final(self).query == old(self).query,
    {
        &mut self.events
    }

    pub fn take_events(&mut self) -> (r: Vec<Event>)
        ensures
            r == old(self).events,
            final(self).events@.len() == 0,
            final(self).ok == old(self).ok,
            final(self).error == old(self).error,
            final(self).states == old(self).states,
            final(self).query == old(self).query,
    {
        let mut v = Vec::new();
        std::mem::swap(&mut self.events, &mut v);
        v
    }

    pub fn get_events(&self) -> (r: &[Event])
        ensures
            r@ == self.events@,
    {
        self.events.as_slice()
    }
}

/// A key and an optional value attached to an event.
#[derive(Clone, Debug)]
pub struct Attribute {
    /// The key.
    pub key: Option<String>,
    /// The value.
    pub value: Option<String>,
}

/// The mathematical model of a [`Attribute`]: strings as characters, nested messages as models.
pub struct AttributeV {
    pub key: Option<Seq<char>>,
    pub value: Option<Seq<char>>,
}

impl View for Attribute {
    type V = AttributeV;

    open spec fn view(&self) -> AttributeV {
        AttributeV {
            key: match self.key { Some(s) => Some(s@), None => None },
            value: match self.value { Some(s) => Some(s@), None => None },
        }
    }
}

impl Attribute {
    /// A value with every field unset or empty.
    pub fn new() -> (r: Attribute)
        ensures
            r.is_empty(),
    {
        Attribute {
            key: None,
            value: None,
        }
    }

    /// The value every unset field reads as: the same as [`Attribute::new`].
    pub fn default_instance() -> (r: Attribute)
        ensures
            r.is_empty(),
    {
        Attribute::new()
    }

    /// Unsets or empties every field.
    pub fn clear(&mut self)
        ensures
            final(self).is_empty(),
    {
        self.key = None;
        self.value = None;
    }

    /// Whether the required key is set.
    pub fn is_initialized(&self) -> (r: bool)
        ensures
            r == self.key is Some,
    {
        self.key.is_some()
    }

    /// Every field is unset or empty.
    pub open spec fn is_empty(&self) -> bool {
        self.key is None
        && self.value is None
    }

    pub fn clear_key(&mut self)
        ensures
            final(self).key is None,
            final(self).value == old(self).value,
    {
        self.key = None;
    }

    pub fn has_key(&self) -> (r: bool)
        ensures
            r == self.key is Some,
    {
        self.key.is_some()
    }

    pub fn set_key(&mut self, v: String)
        ensures
            final(self).key == Some(v),
            final(self).value == old(self).value,
    {
        self.key = Some(v);
    }

    pub fn mut_key(&mut self) -> (r: &mut String)
        ensures
            old(self).key matches Some(v) ==> *r == v,
            old(self).key is None ==> r@.len() == 0,
            final(self).key == Some(*final(r)),
            final(self).value == old(self).value,
    {
        self.key.get_or_insert(String::new())
    }

    pub fn take_key(&mut self) -> (r: String)
        ensures
            old(self).key matches Some(v) ==> r == v,
            old(self).key is None ==> r@.len() == 0,
            final(self).key is None,
            final(self).value == old(self).value,
    {
        match self.key.take() {
            Some(v) => v,
            None => String::new(),
        }
    }

    pub fn get_key(&self) -> (r: &str)
        ensures
            r@ == text_or_empty(self.key),
    {
        match &self.key {
            Some(v) => v.as_str(),
            None => empty_str(),
        }
    }

    pub fn clear_value(&mut self)
        ensures
            final(self).value is None,
            final(self).key == old(self).key,
    {
        self.value = None;
    }

    pub fn has_value(&self) -> (r: bool)
        ensures
            r == self.value is Some,
    {
        self.value.is_some()
    }

    pub fn set_value(&mut self, v: String)
        ensures
            final(self).value == Some(v),
            final(self).key == old(self).key,
    {
        self.value = Some(v);
    }

    pub fn mut_value(&mut self) -> (r: &mut String)
        ensures
            old(self).value matches Some(v) ==> *r == v,
            old(self).value is None ==> r@.len() == 0,
            final(self).value == Some(*final(r)),
            final(self).key == old(self).key,
    {
        self.value.get_or_insert(String::new())
    }

    pub fn take_value(&mut self) -> (r: String)
        ensures
            old(self).value matches Some(v) ==> r == v,
            old(self).value is None ==> r@.len() == 0,
            final(self).value is None,
            final(self).key == old(self).key,
    {
        match self.value.take() {
            Some(v) => v,
            None => String::new(),
        }
    }

    pub fn get_value(&self) -> (r: &str)
        ensures
            r@ == text_or_empty(self.value),
    {
        match &self.value {
            Some(v) => v.as_str(),
            None => empty_str(),
        }
    }
}

fn text_field_eq(a: &Option<String>, b: &Option<String>) -> (r: bool)
    ensures
        r == ((match *a {
            Some(s) => Some(s@),
            None => None,
        }) == (match *b {
            Some(s) => Some(s@),
            None => None,
        })),
{
    match (a, b) {
        (Some(x), Some(y)) => x.eq(y),
        (None, None) => true,
        _ => false,
    }
}

fn texts_eq(a: &Vec<String>, b: &Vec<String>) -> (r: bool)
    ensures
        r == (a@.map_values(|s: String| s@) == b@.map_values(|s: String| s@)),
{
    if a.len() != b.len() {
        assert(a@.map_values(|s: String| s@).len() != b@.map_values(|s: String| s@).len());
        return false;
    }
    let mut i: usize = 0;
    while i < a.len()
        invariant
            i <= a@.len(),
            a@.len() == b@.len(),
            forall|k: int| 0 <= k < i ==> (#[trigger] a@[k])@ == b@[k]@,
        decreases a@.len() - i,
    {
        if a[i] != b[i] {
            assert(a@.map_values(|s: String| s@)[i as int] != b@.map_values(|s: String| s@)[i as int]);
            return false;
        }
        i = i + 1;
    }
    assert(a@.map_values(|s: String| s@) =~= b@.map_values(|s: String| s@));
    true
}

fn attributes_eq(a: &Vec<Attribute>, b: &Vec<Attribute>) -> (r: bool)
    ensures
        r == (a@.map_values(|x: Attribute| x@) == b@.map_values(|x: Attribute| x@)),
{
    if a.len() != b.len() {
        assert(a@.map_values(|x: Attribute| x@).len() != b@.map_values(|x: Attribute| x@).len());
        return false;
    }
    let mut i: usize = 0;
    while i < a.len()
        invariant
            i <= a@.len(),
            a@.len() == b@.len(),
            forall|k: int| 0 <= k < i ==> (#[trigger] a@[k])@ == b@[k]@,
        decreases a@.len() - i,
    {
        if !a[i].eq(&b[i]) {
            assert(a@.map_values(|x: Attribute| x@)[i as int] != b@.map_values(|x: Attribute| x@)[i as int]);
            return false;
        }
        i = i + 1;
    }
    assert(a@.map_values(|x: Attribute| x@) =~= b@.map_values(|x: Attribute| x@));
    true
}

fn states_eq(a: &Vec<State>, b: &Vec<State>) -> (r: bool)
    ensures
        r == (a@.map_values(|x: State| x@) == b@.map_values(|x: State| x@)),
{
    if a.len() != b.len() {
        assert(a@.map_values(|x: State| x@).len() != b@.map_values(|x: State| x@).len());
        return false;
    }
    let mut i: usize = 0;
    while i < a.len()
        invariant
            i <= a@.len(),
            a@.len() == b@.len(),
            forall|k: int| 0 <= k < i ==> (#[trigger] a@[k])@ == b@[k]@,
        decreases a@.len() - i,
    {
        if !a[i].eq(&b[i]) {
            assert(a@.map_values(|x: State| x@)[i as int] != b@.map_values(|x: State| x@)[i as int]);
            return false;
        }
        i = i + 1;
    }
    assert(a@.map_values(|x: State| x@) =~= b@.map_values(|x: State| x@));
    true
}

fn events_eq(a: &Vec<Event>, b: &Vec<Event>) -> (r: bool)
    ensures
        r == (a@.map_values(|x: Event| x@) == b@.map_values(|x: Event| x@)),
{
    if a.len() != b.len() {
        assert(a@.map_values(|x: Event| x@).len() != b@.map_values(|x: Event| x@).len());
        return false;
    }
    let mut i: usize = 0;
    while i < a.len()
        invariant
            i <= a@.len(),
            a@.len() == b@.len(),
            forall|k: int| 0 <= k < i ==> (#[trigger] a@[k])@ == b@[k]@,
        decreases a@.len() - i,
    {
        if !a[i].eq(&b[i]) {
            assert(a@.map_values(|x: Event| x@)[i as int] != b@.map_values(|x: Event| x@)[i as int]);
            return false;
        }
        i = i + 1;
    }
    assert(a@.map_values(|x: Event| x@) =~= b@.map_values(|x: Event| x@));
    true
}

impl PartialEq for State {
    /// Equal field by field.
    fn eq(&self, other: &State) -> (r: bool) {
        let e0 = match (self.time, other.time) {
            (Some(x), Some(y)) => x == y,
            (None, None) => true,
            _ => false,
        };
        let e1 = text_field_eq(&self.state, &other.state);
        let e2 = text_field_eq(&self.service, &other.service);
        let e3 = text_field_eq(&self.host, &other.host);
        let e4 = text_field_eq(&self.description, &other.description);
        let e5 = match (self.once, other.once) {
            (Some(x), Some(y)) => x == y,
            (None, None) => true,
            _ => false,
        };
        let e6 = texts_eq(&self.tags, &other.tags);
        let e7 = match (self.ttl, other.ttl) {
            (Some(x), Some(y)) => x == y,
            (None, None) => true,
            _ => false,
        };
        e0 && e1 && e2 && e3 && e4 && e5 && e6 && e7
    }
}

impl vstd::std_specs::cmp::PartialEqSpecImpl for State {
    open spec fn obeys_eq_spec() -> bool {
        true
    }

    open spec fn eq_spec(&self, other: &State) -> bool {
        self@ == other@
    }
}

impl PartialEq for Event {
    /// Equal field by field.
    fn eq(&self, other: &Event) -> (r: bool) {
        let e0 = match (self.time, other.time) {
            (Some(x), Some(y)) => x == y,
            (None, None) => true,
            _ => false,
        };
        let e1 = text_field_eq(&self.state, &other.state);
        let e2 = text_field_eq(&self.service, &other.service);
        let e3 = text_field_eq(&self.host, &other.host);
        let e4 = text_field_eq(&self.description, &other.description);
        let e5 = texts_eq(&self.tags, &other.tags);
        let e6 = match (self.ttl, other.ttl) {
            (Some(x), Some(y)) => x == y,
            (None, None) => true,
            _ => false,
        };
        let e7 = attributes_eq(&self.attributes, &other.attributes);
        let e8 = match (self.metric_sint64, other.metric_sint64) {
            (Some(x), Some(y)) => x == y,
            (None, None) => true,
            _ => false,
        };
        let e9 = match (self.metric_d, other.metric_d) {
            (Some(x), Some(y)) => x == y,
            (None, None) => true,
            _ => false,
        };
        let e10 = match (self.metric_f, other.metric_f) {
            (Some(x), Some(y)) => x == y,
            (None, None) => true,
            _ => false,
        };
        e0 && e1 && e2 && e3 && e4 && e5 && e6 && e7 && e8 && e9 && e10
    }
}

impl vstd::std_specs::cmp::PartialEqSpecImpl for Event {
    open spec fn obeys_eq_spec() -> bool {
        true
    }

    open spec fn eq_spec(&self, other: &Event) -> bool {
        self@ == other@
    }
}

impl PartialEq for Query {
    /// Equal field by field.
    fn eq(&self, other: &Query) -> (r: bool) {
        let e0 = text_field_eq(&self.string, &other.string);
        e0
    }
}

impl vstd::std_specs::cmp::PartialEqSpecImpl for Query {
    open spec fn obeys_eq_spec() -> bool {
        true
    }

    open spec fn eq_spec(&self, other: &Query) -> bool {
        self@ == other@
    }
}

impl PartialEq for Msg {
    /// Equal field by field.
    fn eq(&self, other: &Msg) -> (r: bool) {
        let e0 = match (self.ok, other.ok) {
            (Some(x), Some(y)) => x == y,
            (None, None) => true,
            _ => false,
        };
        let e1 = text_field_eq(&self.error, &other.error);
        let e2 = states_eq(&self.states, &other.states);
        let e3 = match (&self.query, &other.query) {
            (Some(x), Some(y)) => x.eq(y),
            (None, None) => true,
            _ => false,
        };
        let e4 = events_eq(&self.events, &other.events);
        e0 && e1 && e2 && e3 && e4
    }
}

impl vstd::std_specs::cmp::PartialEqSpecImpl for Msg {
    open spec fn obeys_eq_spec() -> bool {
        true
    }

    open spec fn eq_spec(&self, other: &Msg) -> bool {
        self@ == other@
    }
}

impl PartialEq for Attribute {
    /// Equal field by field.
    fn eq(&self, other: &Attribute) -> (r: bool) {
        let e0 = text_field_eq(&self.key, &other.key);
        let e1 = text_field_eq(&self.value, &other.value);
        e0 && e1
    }
}

impl vstd::std_specs::cmp::PartialEqSpecImpl for Attribute {
    open spec fn obeys_eq_spec() -> bool {
        true
    }

    open spec fn eq_spec(&self, other: &Attribute) -> bool {
        self@ == other@
    }
}

impl From<String> for Query {
    /// A query holding the expression `s`.
    fn from(s: String) -> (r: Query) {
        Query { string: Some(s) }
    }
}

impl vstd::std_specs::convert::FromSpecImpl<String> for Query {
    open spec fn obeys_from_spec() -> bool {
        true
    }

    open spec fn from_spec(s: String) -> Query {
        Query { string: Some(s) }
    }
}

impl<'a> From<&'a str> for Query {
    /// A query holding the expression `s`.
    fn from(s: &'a str) -> (r: Query) {
        Query { string: Some(s.to_owned()) }
    }
}

impl<'a> vstd::std_specs::convert::FromSpecImpl<&'a str> for Query {
    /// The characters of a `&str` have no owned counterpart to name here; the
    /// conversion is described by its `String` sibling.
    open spec fn obeys_from_spec() -> bool {
        false
    }

    open spec fn from_spec(s: &'a str) -> Query {
        Query { string: None }
    }
}

} // verus!
