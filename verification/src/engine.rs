use vstd::prelude::*;

verus! {

/// The closed set of engines the benchmark can target.
#[derive(Debug, Copy, Clone, PartialEq, Eq, Structural)]
pub enum Engine {
    Quickwit,
    Elasticsearch,
    Opensearch,
    Loki,
    Parseable,
    Signoz,
    ZincObserve,
}

impl Engine {
    /// The default `host:port` used when no host is given.
    pub open spec fn spec_default_host(self) -> Seq<char> {
        match self {
            Engine::Quickwit => "127.0.0.1:7280"@,
            Engine::Elasticsearch => "127.0.0.1:9200"@,
            Engine::Opensearch => "127.0.0.1:9301"@,
            Engine::Loki => "127.0.0.1:3100"@,
            Engine::Parseable => "127.0.0.1:8000"@,
            Engine::Signoz => "127.0.0.1:3301"@,
            Engine::ZincObserve => "127.0.0.1:5080"@,
        }
    }

    pub fn default_host(&self) -> (r: &'static str)
        ensures
            r@ == self.spec_default_host(),
    {
        match self {
            Engine::Quickwit => "127.0.0.1:7280",
            Engine::Elasticsearch => "127.0.0.1:9200",
            Engine::Opensearch => "127.0.0.1:9301",
            Engine::Loki => "127.0.0.1:3100",
            Engine::Parseable => "127.0.0.1:8000",
            Engine::Signoz => "127.0.0.1:3301",
            Engine::ZincObserve => "127.0.0.1:5080",
        }
    }

    /// The engine's name, as it appears on the command line and in the report.
    pub open spec fn spec_name(self) -> Seq<char> {
        match self {
            Engine::Quickwit => "quickwit"@,
            Engine::Elasticsearch => "elasticsearch"@,
            Engine::Opensearch => "opensearch"@,
            Engine::Loki => "loki"@,
            Engine::Parseable => "parseable"@,
            Engine::Signoz => "signoz"@,
            Engine::ZincObserve => "zincobserve"@,
        }
    }

    pub fn as_ref(&self) -> (r: &'static str)
        ensures
            r@ == self.spec_name(),
    {
        match self {
            Engine::Quickwit => "quickwit",
            Engine::Elasticsearch => "elasticsearch",
            Engine::Opensearch => "opensearch",
            Engine::Loki => "loki",
            Engine::Parseable => "parseable",
            Engine::Signoz => "signoz",
            Engine::ZincObserve => "zincobserve",
        }
    }

    /// The engine whose name is `s`, if any.
    pub open spec fn spec_from_name(s: Seq<char>) -> Option<Engine> {
        if s == "quickwit"@ {
            Some(Engine::Quickwit)
        } else if s == "elasticsearch"@ {
            Some(Engine::Elasticsearch)
        } else if s == "opensearch"@ {
            Some(Engine::Opensearch)
        } else if s == "loki"@ {
            Some(Engine::Loki)
        } else if s == "parseable"@ {
            Some(Engine::Parseable)
        } else if s == "signoz"@ {
            Some(Engine::Signoz)
        } else if s == "zincobserve"@ {
            Some(Engine::ZincObserve)
        } else {
            None
        }
    }

    pub fn from_str(s: &str) -> (r: Option<Engine>)
        ensures
            r == Engine::spec_from_name(s@),
    {
        let name = String::from_str(s);
        if name == String::from_str("quickwit") {
            Some(Engine::Quickwit)
        } else if name == String::from_str("elasticsearch") {
            Some(Engine::Elasticsearch)
        } else if name == String::from_str("opensearch") {
            Some(Engine::Opensearch)
        } else if name == String::from_str("loki") {
            Some(Engine::Loki)
        } else if name == String::from_str("parseable") {
            Some(Engine::Parseable)
        } else if name == String::from_str("signoz") {
            Some(Engine::Signoz)
        } else if name == String::from_str("zincobserve") {
            Some(Engine::ZincObserve)
        } else {
            None
        }
    }
}

} // verus!
