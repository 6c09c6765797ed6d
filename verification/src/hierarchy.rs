//! Dealing with the hierarchy of data.
use crate::directive::directives;
use crate::directive::Entry;
use crate::directive::parse_spec;
use crate::directive::Token;
use crate::directive::tokens;
use crate::error::CoreError;
use crate::error::DirectiveProblem;
use crate::table::Table;
use crate::text::same_text;
use crate::yaml::clone_value;
use crate::yaml::decoded_string;
use crate::yaml::decoded_strings;
use crate::yaml::decoded_value;
use crate::yaml::decoded_values;
use crate::yaml::error_text;
use crate::yaml::into_mapping;
use crate::yaml::mapping_get;
use crate::yaml::mapping_insert;
use crate::yaml::mapping_new;
use crate::yaml::mapping_of_value;
use crate::yaml::mapping_strings;
use crate::yaml::parse_document;
use crate::yaml::parsed_document;
use crate::yaml::sequence_value;
use crate::yaml::string_from_value;
use crate::yaml::string_value;
use crate::yaml::strings_from_value;
use crate::yaml::value_from_value;
use crate::yaml::value_of_sequence;
use crate::yaml::value_of_string;
use crate::yaml::values_from_value;
use serde_yaml::Error as YamlError;
use serde_yaml::Mapping;
use serde_yaml::Value;
use vstd::prelude::*;

verus! {

/// A shape that a stored value can be asked for.
pub trait Decode: Sized {
    /// What a decoded item is in contracts.
    type Shape;

    /// The item as contracts see it.
    spec fn shape(&self) -> Self::Shape;

    /// What `value` decodes to, where it has this shape.
    spec fn decoded(value: Value) -> Option<Self::Shape>;

    /// What `value` decodes to as a list of this shape, where it is one.
    spec fn decoded_list(value: Value) -> Option<Seq<Self::Shape>>;

    /// Decodes one item.
    fn decode(value: Value) -> (outcome: Result<Self, YamlError>)
        ensures
            match outcome {
                Ok(item) => Self::decoded(value) == Some(item.shape()),
                Err(_) => Self::decoded(value) is None,
            },
    ;

    /// Decodes a list of items.
    fn decode_list(value: Value) -> (outcome: Result<Vec<Self>, YamlError>)
        ensures
            match outcome {
                Ok(items) => Self::decoded_list(value) == Some(
                    items@.map_values(|item: Self| item.shape()),
                ),
                Err(_) => Self::decoded_list(value) is None,
            },
    ;
}

/// The shapes of a list of items, in order.
pub open spec fn shapes<T: Decode>(items: Seq<T>) -> Seq<T::Shape> {
    items.map_values(|item: T| item.shape())
}

impl Decode for String {
    type Shape = Seq<char>;

    open spec fn shape(&self) -> Seq<char> {
        self@
    }

    open spec fn decoded(value: Value) -> Option<Seq<char>> {
        decoded_string(value)
    }

    open spec fn decoded_list(value: Value) -> Option<Seq<Seq<char>>> {
        decoded_strings(value)
    }

    fn decode(value: Value) -> (outcome: Result<String, YamlError>) {
        string_from_value(value)
    }

    fn decode_list(value: Value) -> (outcome: Result<Vec<String>, YamlError>) {
        let outcome = strings_from_value(value);
        proof {
            if outcome is Ok {
                let items = outcome->Ok_0;
                assert(items@.map_values(|item: String| item.shape()) =~= items@.map_values(
                    |s: String| s@,
                ));
            }
        }
        outcome
    }
}

impl Decode for Value {
    type Shape = Value;

    open spec fn shape(&self) -> Value {
        *self
    }

    open spec fn decoded(value: Value) -> Option<Value> {
        decoded_value(value)
    }

    open spec fn decoded_list(value: Value) -> Option<Seq<Value>> {
        decoded_values(value)
    }

    fn decode(value: Value) -> (outcome: Result<Value, YamlError>) {
        value_from_value(value)
    }

    fn decode_list(value: Value) -> (outcome: Result<Vec<Value>, YamlError>) {
        let outcome = values_from_value(value);
        proof {
            if outcome is Ok {
                let items = outcome->Ok_0;
                assert(items@.map_values(|item: Value| item.shape()) =~= items@);
            }
        }
        outcome
    }
}

/// What the layers hold under `key`: the value of the first layer, in
/// order, that has the key. Earlier layers win outright.
pub open spec fn first_value(layers: Seq<Map<Seq<char>, Value>>, key: Seq<char>) -> Option<Value>
    decreases layers.len(),
{
    if layers.len() == 0 {
        None
    } else if layers[0].contains_key(key) {
        Some(layers[0][key])
    } else {
        first_value(layers.drop_first(), key)
    }
}

/// The lists that the layers hold under `key`, decoded and joined in layer
/// order; `None` where some layer's value for the key is no such list.
pub open spec fn merged_list<T: Decode>(layers: Seq<Map<Seq<char>, Value>>, key: Seq<char>) -> Option<
    Seq<T::Shape>,
>
    decreases layers.len(),
{
    if layers.len() == 0 {
        Some(Seq::empty())
    } else {
        match merged_list::<T>(layers.drop_last(), key) {
            None => None,
            Some(front) => if layers.last().contains_key(key) {
                match T::decoded_list(layers.last()[key]) {
                    Some(items) => Some(front + items),
                    None => None,
                }
            } else {
                Some(front)
            },
        }
    }
}

/// What a lookup of `key` owes: nothing where no layer holds the key;
/// else the first holder's value, decoded; an error naming the key where
/// that value does not have the shape asked for.
pub open spec fn looked_up<T: Decode>(
    layers: Seq<Map<Seq<char>, Value>>,
    key: Seq<char>,
    outcome: Result<Option<T>, CoreError>,
) -> bool {
    match first_value(layers, key) {
        None => outcome matches Ok(None),
        Some(value) => match T::decoded(value) {
            Some(shape) => outcome matches Ok(Some(item)) && item.shape() == shape,
            None => outcome matches Err(CoreError::Deserialization { key: name, .. }) && name@
                == key,
        },
    }
}

/// What a list lookup of `key` owes: the merged list of the layers, or an
/// error naming the key where some layer's value is no such list.
pub open spec fn listed<T: Decode>(
    layers: Seq<Map<Seq<char>, Value>>,
    key: Seq<char>,
    outcome: Result<Vec<T>, CoreError>,
) -> bool {
    match merged_list::<T>(layers, key) {
        Some(all) => outcome matches Ok(items) && shapes(items@) == all,
        None => outcome matches Err(CoreError::Deserialization { key: name, .. }) && name@ == key,
    }
}

/// Wrapper for hierarchy data.
pub struct Data(Vec<Mapping>);

impl View for Data {
    type V = Seq<Map<Seq<char>, Value>>;

    open spec fn view(&self) -> Seq<Map<Seq<char>, Value>> {
        self.layers().map_values(|layer: Mapping| mapping_strings(layer))
    }
}

impl Data {
    /// The layers themselves, in priority order.
    pub closed spec fn layers(&self) -> Seq<Mapping> {
        self.0@
    }

    /// Construct a new set of hierarchical data. The order of `data` is the
    /// order of priority: the first layer wins.
    pub fn new(data: Vec<Mapping>) -> (store: Data)
        ensures
            store.layers() == data@,
            store@ == data@.map_values(|layer: Mapping| mapping_strings(layer)),
    {
        Data(data)
    }

    /// Load the given key.
    pub fn load<T: Decode>(&self, key: &str) -> (outcome: Result<Option<T>, CoreError>)
        ensures
            looked_up(self@, key@, outcome),
    {
        let n: usize = self.0.len();
        let mut i: usize = 0;
        assert(self@.subrange(0, n as int) =~= self@);
        while i < n
            invariant
                i <= n,
                n == self@.len(),
                n == self.0@.len(),
                first_value(self@, key@) == first_value(self@.subrange(i as int, n as int), key@),
            decreases n - i,
        {
            let ghost rest = self@.subrange(i as int, n as int);
            assert(rest[0] == mapping_strings(self.0@[i as int]));
            assert(rest.drop_first() =~= self@.subrange(i + 1, n as int));
            if let Some(value) = mapping_get(&self.0[i], key) {
                return match T::decode(clone_value(value)) {
                    Ok(item) => Ok(Some(item)),
                    Err(error) => Err(
                        CoreError::Deserialization {
                            key: key.to_owned(),
                            message: error_text(&error),
                        },
                    ),
                };
            }
            i += 1;
        }
        Ok(None)
    }

    /// Load the given key, if it doesn't exist, use a default value.
    pub fn load_or_default<T: Default + Decode>(&self, key: &str) -> (outcome: Result<T, CoreError>)
        ensures
            match first_value(self@, key@) {
                None => outcome matches Ok(item) && call_ensures(T::default, (), item),
                Some(value) => match T::decoded(value) {
                    Some(shape) => outcome matches Ok(item) && item.shape() == shape,
                    None => outcome matches Err(CoreError::Deserialization { key: name, .. })
                        && name@ == key@,
                },
            },
    {
        match self.load::<T>(key) {
            Ok(Some(item)) => Ok(item),
            Ok(None) => Ok(T::default()),
            Err(error) => Err(error),
        }
    }

    /// Load the given key as a list: the lists of all layers that hold the
    /// key, joined in layer order.
    pub fn load_array<T: Decode>(&self, key: &str) -> (outcome: Result<Vec<T>, CoreError>)
        ensures
            listed(self@, key@, outcome),
    {
        let n: usize = self.0.len();
        let mut out: Vec<T> = Vec::new();
        let mut i: usize = 0;
        assert(shapes(out@) =~= Seq::<T::Shape>::empty());
        while i < n
            invariant
                i <= n,
                n == self@.len(),
                n == self.0@.len(),
                merged_list::<T>(self@.subrange(0, i as int), key@) == Some(shapes(out@)),
            decreases n - i,
        {
            let ghost longer = self@.subrange(0, i + 1);
            assert(longer.drop_last() =~= self@.subrange(0, i as int));
            assert(longer.last() == mapping_strings(self.0@[i as int]));
            if let Some(value) = mapping_get(&self.0[i], key) {
                match T::decode_list(clone_value(value)) {
                    Ok(mut items) => {
                        let ghost before = out@;
                        let ghost added = items@;
                        out.append(&mut items);
                        assert(shapes(before + added) =~= shapes(before) + shapes(added));
                    },
                    Err(error) => {
                        proof {
                            lemma_merge_fails_for_good::<T>(self@, i + 1, key@);
                        }
                        return Err(
                            CoreError::Deserialization {
                                key: key.to_owned(),
                                message: error_text(&error),
                            },
                        );
                    },
                }
            }
            i += 1;
        }
        assert(self@.subrange(0, n as int) =~= self@);
        Ok(out)
    }

    /// Resolves the entries of a directive line, in order, into one
    /// mapping with an entry per key. The first entry that cannot be
    /// resolved ends the work with its error.
    pub fn resolve(&self, entries: &Vec<Entry>, environment: &Table<String>) -> (outcome: Result<
        Mapping,
        CoreError,
    >)
        ensures
            match resolve_all(self@, environment@, tokens(entries@)) {
                Ok(contents) => outcome matches Ok(mapping) && mapping_strings(mapping)
                    == contents,
                Err(flaw) => outcome matches Err(error) && reports(error, flaw),
            },
    {
        let mut mapping = mapping_new();
        let n: usize = entries.len();
        let mut i: usize = 0;
        assert(tokens(entries@).subrange(0, 0) =~= Seq::<Token>::empty());
        while i < n
            invariant
                i <= n,
                n == entries@.len(),
                resolve_all(self@, environment@, tokens(entries@).subrange(0, i as int)) == Ok::<
                    Map<Seq<char>, Value>,
                    Flaw,
                >(mapping_strings(mapping)),
            decreases n - i,
        {
            let entry = &entries[i];
            let ghost all = tokens(entries@);
            let ghost longer = all.subrange(0, i + 1);
            proof {
                assert(longer.drop_last() =~= all.subrange(0, i as int));
                assert(longer.last() == entry@);
                lemma_failure_is_final(self@, environment@, all, i + 1);
            }
            let value = match self.resolve_entry(entry, environment) {
                Ok(value) => value,
                Err(error) => {
                    return Err(error);
                },
            };
            mapping_insert(&mut mapping, entry.key.as_str(), value);
            i += 1;
        }
        assert(tokens(entries@).subrange(0, n as int) =~= tokens(entries@));
        Ok(mapping)
    }

    /// Resolves one entry of a directive line to its value.
    pub fn resolve_entry(&self, entry: &Entry, environment: &Table<String>) -> (outcome: Result<
        Value,
        CoreError,
    >)
        ensures
            match resolve_one(self@, environment@, entry@) {
                Ok(value) => outcome == Ok::<Value, CoreError>(value),
                Err(flaw) => outcome matches Err(error) && reports(error, flaw),
            },
    {
        let key = entry.key.as_str();
        match &entry.kind {
            None => match self.load::<Value>(key) {
                Ok(Some(value)) => Ok(value),
                Ok(None) => Err(
                    CoreError::SpecDirective {
                        fragment: key.to_owned(),
                        problem: DirectiveProblem::MissingKey,
                    },
                ),
                Err(error) => Err(error),
            },
            Some(kind) => {
                if same_text(kind.as_str(), "array") {
                    match self.load_array::<Value>(key) {
                        Ok(items) => {
                            assert(shapes(items@) =~= items@);
                            Ok(sequence_value(items))
                        },
                        Err(error) => Err(error),
                    }
                } else if same_text(kind.as_str(), "env") {
                    match environment.get(key) {
                        Some(text) => Ok(string_value(text.clone())),
                        None => Err(
                            CoreError::SpecDirective {
                                fragment: key.to_owned(),
                                problem: DirectiveProblem::MissingVariable,
                            },
                        ),
                    }
                } else {
                    Err(
                        CoreError::SpecDirective {
                            fragment: entry.part.clone(),
                            problem: DirectiveProblem::UnknownKind,
                        },
                    )
                }
            },
        }
    }

    /// Load data based on a file spec.
    /// This is typically in the first couple of lines in a file.
    pub fn load_from_spec(&self, content: &str, environment: &Table<String>) -> (outcome: Result<
        Mapping,
        CoreError,
    >)
        ensures
            match resolve_all(self@, environment@, directives(content@)) {
                Ok(contents) => outcome matches Ok(mapping) && mapping_strings(mapping)
                    == contents,
                Err(flaw) => outcome matches Err(error) && reports(error, flaw),
            },
    {
        let entries = parse_spec(content);
        self.resolve(&entries, environment)
    }
}

/// Why an entry of a directive line cannot be resolved.
pub enum Flaw {
    /// The entry, given whole, names a kind that is not known.
    UnknownKind(Seq<char>),
    /// No layer holds the key.
    MissingKey(Seq<char>),
    /// The environment has no variable of that name.
    MissingVariable(Seq<char>),
    /// A layer's value for the key does not have the shape asked for.
    WrongShape(Seq<char>),
}

/// Whether `error` is the error that stands for `flaw`.
pub open spec fn reports(error: CoreError, flaw: Flaw) -> bool {
    match flaw {
        Flaw::UnknownKind(part) => error matches CoreError::SpecDirective { fragment, problem }
            && fragment@ == part && problem == DirectiveProblem::UnknownKind,
        Flaw::MissingKey(key) => error matches CoreError::SpecDirective { fragment, problem }
            && fragment@ == key && problem == DirectiveProblem::MissingKey,
        Flaw::MissingVariable(key) => error matches CoreError::SpecDirective { fragment, problem }
            && fragment@ == key && problem == DirectiveProblem::MissingVariable,
        Flaw::WrongShape(key) => error matches CoreError::Deserialization { key: name, .. }
            && name@ == key,
    }
}

/// What one entry resolves to. Without a kind the key must be in the
/// hierarchy; `array` joins the lists of all layers; `env` reads the
/// environment; every other kind is refused.
pub open spec fn resolve_one(
    layers: Seq<Map<Seq<char>, Value>>,
    environment: Map<Seq<char>, String>,
    token: Token,
) -> Result<Value, Flaw> {
    match token.kind {
        None => match first_value(layers, token.key) {
            None => Err(Flaw::MissingKey(token.key)),
            Some(value) => match Value::decoded(value) {
                Some(decoded) => Ok(decoded),
                None => Err(Flaw::WrongShape(token.key)),
            },
        },
        Some(kind) => if kind == "array"@ {
            match merged_list::<Value>(layers, token.key) {
                Some(all) => Ok(value_of_sequence(all)),
                None => Err(Flaw::WrongShape(token.key)),
            }
        } else if kind == "env"@ {
            if environment.contains_key(token.key) {
                Ok(value_of_string(environment[token.key]@))
            } else {
                Err(Flaw::MissingVariable(token.key))
            }
        } else {
            Err(Flaw::UnknownKind(token.part))
        },
    }
}

/// What a list of entries resolves to: one entry per key, a later entry
/// for a key replacing an earlier one; the first flaw, where there is one.
pub open spec fn resolve_all(
    layers: Seq<Map<Seq<char>, Value>>,
    environment: Map<Seq<char>, String>,
    entries: Seq<Token>,
) -> Result<Map<Seq<char>, Value>, Flaw>
    decreases entries.len(),
{
    if entries.len() == 0 {
        Ok(Map::empty())
    } else {
        match resolve_all(layers, environment, entries.drop_last()) {
            Err(flaw) => Err(flaw),
            Ok(contents) => match resolve_one(layers, environment, entries.last()) {
                Err(flaw) => Err(flaw),
                Ok(value) => Ok(contents.insert(entries.last().key, value)),
            },
        }
    }
}

/// A flaw among the first entries is the flaw of the whole list.
pub proof fn lemma_failure_is_final(
    layers: Seq<Map<Seq<char>, Value>>,
    environment: Map<Seq<char>, String>,
    entries: Seq<Token>,
    upto: int,
)
    requires
        0 <= upto <= entries.len(),
    ensures
        resolve_all(layers, environment, entries.subrange(0, upto)) is Err ==> resolve_all(
            layers,
            environment,
            entries,
        ) == resolve_all(layers, environment, entries.subrange(0, upto)),
    decreases entries.len() - upto,
{
    if upto == entries.len() {
        assert(entries.subrange(0, upto) =~= entries);
    } else {
        let longer = entries.subrange(0, upto + 1);
        assert(longer.drop_last() =~= entries.subrange(0, upto));
        lemma_failure_is_final(layers, environment, entries, upto + 1);
    }
}

/// Once a layer's value for the key fails to decode as a list, the merge
/// fails whatever layers follow.
pub proof fn lemma_merge_fails_for_good<T: Decode>(
    layers: Seq<Map<Seq<char>, Value>>,
    upto: int,
    key: Seq<char>,
)
    requires
        0 <= upto <= layers.len(),
        merged_list::<T>(layers.subrange(0, upto), key) is None,
    ensures
        merged_list::<T>(layers, key) is None,
    decreases layers.len() - upto,
{
    if upto == layers.len() {
        assert(layers.subrange(0, upto) =~= layers);
    } else {
        let longer = layers.subrange(0, upto + 1);
        assert(longer.drop_last() =~= layers.subrange(0, upto));
        lemma_merge_fails_for_good::<T>(layers, upto + 1, key);
    }
}

/// What became of one template of the hierarchy, once its path was
/// rendered and its file read.
#[derive(Debug)]
pub enum Source {
    /// The template rendered to no path: it contributes no layer.
    Skipped,
    /// The file at `path` could not be opened or read.
    Unreadable { path: String, message: String },
    /// The file at `path` holds `text`.
    Text { path: String, text: String },
}

/// Why a source gives no layer when it should.
pub enum LoadFlaw {
    /// The file at the path could not be opened or read, for the reason given.
    Unreadable(Seq<char>, Seq<char>),
    /// The text at the path is no YAML document.
    Malformed(Seq<char>),
    /// The document at the path is no mapping at its top level.
    NotMapping(Seq<char>),
}

/// Whether `error` is the error that stands for `flaw`.
pub open spec fn load_reports(error: CoreError, flaw: LoadFlaw) -> bool {
    match flaw {
        LoadFlaw::Unreadable(path, reason) => error matches CoreError::FileAccess {
            path: at,
            message,
        } && at@ == path && message@ == reason,
        LoadFlaw::Malformed(path) => error matches CoreError::Parse { path: at, .. } && at@
            == path,
        LoadFlaw::NotMapping(path) => error matches CoreError::Parse { path: at, message }
            && at@ == path && message@ == "exists, but is not a mapping"@,
    }
}

/// The layer that one source contributes: none where it was skipped, the
/// mapping that its text parses to otherwise.
pub open spec fn layer_of(source: Source) -> Result<Option<Mapping>, LoadFlaw> {
    match source {
        Source::Skipped => Ok(None),
        Source::Unreadable { path, message } => Err(LoadFlaw::Unreadable(path@, message@)),
        Source::Text { path, text } => match parsed_document(text@) {
            None => Err(LoadFlaw::Malformed(path@)),
            Some(document) => match mapping_of_value(document) {
                None => Err(LoadFlaw::NotMapping(path@)),
                Some(mapping) => Ok(Some(mapping)),
            },
        },
    }
}

/// The layers that a list of sources contributes, in the order of the
/// sources; the first flaw, where there is one. A hierarchy is whole or
/// it is not there.
pub open spec fn assemble(sources: Seq<Source>) -> Result<Seq<Mapping>, LoadFlaw>
    decreases sources.len(),
{
    if sources.len() == 0 {
        Ok(Seq::empty())
    } else {
        match assemble(sources.drop_last()) {
            Err(flaw) => Err(flaw),
            Ok(layers) => match layer_of(sources.last()) {
                Err(flaw) => Err(flaw),
                Ok(None) => Ok(layers),
                Ok(Some(layer)) => Ok(layers.push(layer)),
            },
        }
    }
}

/// A flaw among the first sources is the flaw of the whole list.
pub proof fn lemma_load_failure_is_final(sources: Seq<Source>, upto: int)
    requires
        0 <= upto <= sources.len(),
    ensures
        assemble(sources.subrange(0, upto)) is Err ==> assemble(sources) == assemble(
            sources.subrange(0, upto),
        ),
    decreases sources.len() - upto,
{
    if upto == sources.len() {
        assert(sources.subrange(0, upto) =~= sources);
    } else {
        let longer = sources.subrange(0, upto + 1);
        assert(longer.drop_last() =~= sources.subrange(0, upto));
        lemma_load_failure_is_final(sources, upto + 1);
    }
}

/// Reads one source as a layer.
pub fn load_layer(source: &Source) -> (outcome: Result<Option<Mapping>, CoreError>)
    ensures
        match layer_of(*source) {
            Ok(layer) => outcome == Ok::<Option<Mapping>, CoreError>(layer),
            Err(flaw) => outcome matches Err(error) && load_reports(error, flaw),
        },
{
    match source {
        Source::Skipped => Ok(None),
        Source::Unreadable { path, message } => Err(
            CoreError::FileAccess { path: path.clone(), message: message.clone() },
        ),
        Source::Text { path, text } => match parse_document(text.as_str()) {
            Err(error) => Err(CoreError::Parse { path: path.clone(), message: error_text(&error) }),
            Ok(document) => match into_mapping(document) {
                Some(mapping) => Ok(Some(mapping)),
                None => Err(
                    CoreError::Parse {
                        path: path.clone(),
                        message: "exists, but is not a mapping".to_owned(),
                    },
                ),
            },
        },
    }
}

/// Load a hierarchy: one layer per source that was not skipped, in the
/// order of the sources, which is the order of priority.
pub fn load(sources: &Vec<Source>) -> (outcome: Result<Data, CoreError>)
    ensures
        match assemble(sources@) {
            Ok(layers) => outcome matches Ok(data) && data.layers() == layers,
            Err(flaw) => outcome matches Err(error) && load_reports(error, flaw),
        },
{
    let mut stages: Vec<Mapping> = Vec::new();
    let n: usize = sources.len();
    let mut i: usize = 0;
    assert(sources@.subrange(0, 0) =~= Seq::<Source>::empty());
    while i < n
        invariant
            i <= n,
            n == sources@.len(),
            assemble(sources@.subrange(0, i as int)) == Ok::<Seq<Mapping>, LoadFlaw>(stages@),
        decreases n - i,
    {
        let ghost longer = sources@.subrange(0, i + 1);
        proof {
            assert(longer.drop_last() =~= sources@.subrange(0, i as int));
            assert(longer.last() == sources@[i as int]);
            lemma_load_failure_is_final(sources@, i + 1);
        }
        match load_layer(&sources[i]) {
            Err(error) => {
                return Err(error);
            },
            Ok(None) => {},
            Ok(Some(layer)) => {
                stages.push(layer);
            },
        }
        i += 1;
    }
    assert(sources@.subrange(0, n as int) =~= sources@);
    Ok(Data::new(stages))
}

/// Override: a key resolves to the value of the first layer that holds
/// it, whatever later layers hold, and to nothing where no layer holds it.
pub proof fn law_first_holder_wins(layers: Seq<Map<Seq<char>, Value>>, key: Seq<char>, holder: int)
    requires
        0 <= holder <= layers.len(),
        forall|j: int| 0 <= j < holder ==> !(#[trigger] layers[j]).contains_key(key),
        holder < layers.len() ==> layers[holder].contains_key(key),
    ensures
        holder < layers.len() ==> first_value(layers, key) == Some(layers[holder][key]),
        holder == layers.len() ==> first_value(layers, key) is None,
    decreases layers.len(),
{
    if layers.len() > 0 && holder > 0 {
        let rest = layers.drop_first();
        assert(!layers[0].contains_key(key));
        assert forall|j: int| 0 <= j < holder - 1 implies !(#[trigger] rest[j]).contains_key(
            key,
        ) by {
            assert(rest[j] == layers[j + 1]);
        }
        law_first_holder_wins(rest, key, holder - 1);
    }
}

/// Merge: the list under a key over two runs of layers is the list over
/// the first run followed by the list over the second, so items come in
/// layer order; it fails where either run fails.
pub proof fn law_merge_follows_layers<T: Decode>(
    front: Seq<Map<Seq<char>, Value>>,
    back: Seq<Map<Seq<char>, Value>>,
    key: Seq<char>,
)
    ensures
        merged_list::<T>(front + back, key) == match (
            merged_list::<T>(front, key),
            merged_list::<T>(back, key),
        ) {
            (Some(first), Some(second)) => Some(first + second),
            _ => None,
        },
    decreases back.len(),
{
    if back.len() == 0 {
        assert(front + back =~= front);
        if merged_list::<T>(front, key) is Some {
            let first = merged_list::<T>(front, key)->Some_0;
            assert(first + Seq::<T::Shape>::empty() =~= first);
        }
    } else {
        assert((front + back).drop_last() =~= front + back.drop_last());
        assert((front + back).last() == back.last());
        law_merge_follows_layers::<T>(front, back.drop_last(), key);
        if merged_list::<T>(front, key) is Some && merged_list::<T>(back.drop_last(), key)
            is Some {
            let first = merged_list::<T>(front, key)->Some_0;
            let middle = merged_list::<T>(back.drop_last(), key)->Some_0;
            if back.last().contains_key(key) && T::decoded_list(back.last()[key]) is Some {
                let items = T::decoded_list(back.last()[key])->Some_0;
                assert((first + middle) + items =~= first + (middle + items));
            }
        }
    }
}

/// A layer that does not hold the key adds nothing to the merged list,
/// and one layer alone gives its own list.
pub proof fn law_merge_of_one_layer<T: Decode>(layer: Map<Seq<char>, Value>, key: Seq<char>)
    ensures
        !layer.contains_key(key) ==> merged_list::<T>(seq![layer], key) == Some(
            Seq::<T::Shape>::empty(),
        ),
        layer.contains_key(key) ==> merged_list::<T>(seq![layer], key) == T::decoded_list(
            layer[key],
        ),
{
    let one = seq![layer];
    assert(one.drop_last() =~= Seq::<Map<Seq<char>, Value>>::empty());
    assert(merged_list::<T>(one.drop_last(), key) == Some(Seq::<T::Shape>::empty()));
    assert(one.last() == layer);
    if layer.contains_key(key) && T::decoded_list(layer[key]) is Some {
        let items = T::decoded_list(layer[key])->Some_0;
        assert(Seq::<T::Shape>::empty() + items =~= items);
    }
}

/// Lookups are repeatable: whatever two lookups of one key in one store
/// return, they return the same: both nothing, both an item of the same
/// shape, or both the error for that key.
pub proof fn law_lookup_is_repeatable<T: Decode>(
    layers: Seq<Map<Seq<char>, Value>>,
    key: Seq<char>,
    first: Result<Option<T>, CoreError>,
    second: Result<Option<T>, CoreError>,
)
    requires
        looked_up(layers, key, first),
        looked_up(layers, key, second),
    ensures
        match (first, second) {
            (Ok(None), Ok(None)) => true,
            (Ok(Some(a)), Ok(Some(b))) => a.shape() == b.shape(),
            (
                Err(CoreError::Deserialization { key: a, .. }),
                Err(CoreError::Deserialization { key: b, .. }),
            ) => a@ == key && b@ == key,
            _ => false,
        },
{
}

/// List lookups are repeatable: two of them for one key in one store
/// return lists of the same shapes in the same order, or both the error
/// for that key.
pub proof fn law_list_lookup_is_repeatable<T: Decode>(
    layers: Seq<Map<Seq<char>, Value>>,
    key: Seq<char>,
    first: Result<Vec<T>, CoreError>,
    second: Result<Vec<T>, CoreError>,
)
    requires
        listed(layers, key, first),
        listed(layers, key, second),
    ensures
        match (first, second) {
            (Ok(a), Ok(b)) => shapes(a@) == shapes(b@),
            (
                Err(CoreError::Deserialization { key: a, .. }),
                Err(CoreError::Deserialization { key: b, .. }),
            ) => a@ == key && b@ == key,
            _ => false,
        },
{
}

} // verus!
