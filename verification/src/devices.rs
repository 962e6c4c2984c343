//! Audio device names: the labelled, sorted catalogue shown to the user, the
//! default choice, and how a chosen label selects an input device.
use crate::text::{
    chars_of, has_prefix, lemma_lex_irreflexive, lemma_lex_total, lemma_lex_transitive, lex_less,
    lex_less_chars, starts_with_chars, trim_spec, trim_text,
};
use vstd::prelude::*;

verus! {

/// Whether a device plays sound or records it.
#[derive(Clone, Copy, Debug, PartialEq, Eq, Structural)]
pub enum DeviceDirection {
    Output,
    Input,
}

/// The label prefix of a direction.
pub open spec fn direction_prefix(direction: DeviceDirection) -> Seq<char> {
    match direction {
        DeviceDirection::Output => "output: "@,
        DeviceDirection::Input => "input: "@,
    }
}

/// The label under which a device is listed: its direction, then its name.
pub open spec fn label_spec(direction: DeviceDirection, name: Seq<char>) -> Seq<char> {
    direction_prefix(direction) + name
}

/// The character sequences of a list of strings.
pub open spec fn keys(v: Seq<String>) -> Seq<Seq<char>> {
    v.map_values(|s: String| s@)
}

/// Each element comes strictly before the next: sorted, with no duplicates.
pub open spec fn strictly_sorted(s: Seq<Seq<char>>) -> bool {
    forall|i: int, j: int| 0 <= i < j < s.len() ==> lex_less(#[trigger] s[i], #[trigger] s[j])
}

/// Labels of an optional device.
pub open spec fn optional_labels(direction: DeviceDirection, name: Option<String>) -> Seq<
    Seq<char>,
> {
    match name {
        Some(n) => seq![label_spec(direction, n@)],
        None => Seq::empty(),
    }
}

/// Labels of a list of devices.
pub open spec fn labels_of(direction: DeviceDirection, names: Seq<String>) -> Seq<Seq<char>> {
    names.map_values(|n: String| label_spec(direction, n@))
}

/// Every label of the catalogue, before sorting: the default output, the
/// default input, the outputs, the inputs.
pub open spec fn catalog_labels(
    default_output: Option<String>,
    default_input: Option<String>,
    outputs: Seq<String>,
    inputs: Seq<String>,
) -> Seq<Seq<char>> {
    optional_labels(DeviceDirection::Output, default_output) + optional_labels(
        DeviceDirection::Input,
        default_input,
    ) + labels_of(DeviceDirection::Output, outputs) + labels_of(DeviceDirection::Input, inputs)
}

/// The name a chosen label asks for: the text after its direction prefix,
/// trimmed; none when the label has no direction prefix.
pub open spec fn requested_name_spec(label: Seq<char>) -> Option<Seq<char>> {
    if has_prefix(label, "output: "@) {
        Some(trim_spec(label.skip("output: "@.len() as int)))
    } else if has_prefix(label, "input: "@) {
        Some(trim_spec(label.skip("input: "@.len() as int)))
    } else {
        None
    }
}

/// A listed device's name, when it could be read, is `name`.
pub open spec fn is_named(entry: Option<String>, name: Seq<char>) -> bool {
    entry matches Some(n) && n@ == name
}

/// Index `i` is the first listed device whose name is `name`.
pub open spec fn first_named(names: Seq<Option<String>>, name: Seq<char>, i: int) -> bool {
    &&& 0 <= i < names.len()
    &&& is_named(names[i], name)
    &&& forall|j: int| 0 <= j < i ==> !is_named(#[trigger] names[j], name)
}

/// Some listed device is named `name`.
pub open spec fn has_named(names: Seq<Option<String>>, name: Seq<char>) -> bool {
    exists|i: int| 0 <= i < names.len() && is_named(#[trigger] names[i], name)
}

/// Which input device to record from.
#[derive(Clone, Copy, Debug, PartialEq, Eq, Structural)]
pub enum InputChoice {
    /// The listed input device at this position.
    Listed(usize),
    /// The system's default input device.
    DefaultInput,
}

/// The input device a chosen label selects, among the listed input devices
/// (`None` where a device's name could not be read): the first one with the
/// requested name; otherwise the default input, where there is one.
pub open spec fn input_choice_spec(
    label: Seq<char>,
    input_names: Seq<Option<String>>,
    has_default_input: bool,
) -> Option<InputChoice> {
    match requested_name_spec(label) {
        Some(name) if has_named(input_names, name) => Some(
            InputChoice::Listed(
                (choose|i: int| #[trigger] first_named(input_names, name, i)) as usize,
            ),
        ),
        _ => if has_default_input {
            Some(InputChoice::DefaultInput)
        } else {
            None
        },
    }
}

/// The label of a device.
pub fn device_label(direction: DeviceDirection, name: &str) -> (r: String)
    ensures
        r@ == label_spec(direction, name@),
{
    let mut label = match direction {
        DeviceDirection::Output => String::from_str("output: "),
        DeviceDirection::Input => String::from_str("input: "),
    };
    label.append(name);
    label
}

/// What a sequence with an element appended contains.
proof fn lemma_push_contains(s: Seq<Seq<char>>, x: Seq<char>, t: Seq<char>)
    ensures
        s.push(x).contains(t) <==> (s.contains(t) || t == x),
{
    if s.contains(t) {
        let i = choose|i: int| 0 <= i < s.len() && s[i] == t;
        assert(s.push(x)[i] == t);
    }
    if t == x {
        assert(s.push(x)[s.len() as int] == x);
    }
    if s.push(x).contains(t) {
        let i = choose|i: int| 0 <= i < s.push(x).len() && s.push(x)[i] == t;
        if i < s.len() {
            assert(s[i] == t);
        }
    }
}

/// What a concatenation contains.
proof fn lemma_concat_contains(a: Seq<Seq<char>>, b: Seq<Seq<char>>, t: Seq<char>)
    ensures
        (a + b).contains(t) <==> (a.contains(t) || b.contains(t)),
{
    if a.contains(t) {
        let i = choose|i: int| 0 <= i < a.len() && a[i] == t;
        assert((a + b)[i] == t);
    }
    if b.contains(t) {
        let i = choose|i: int| 0 <= i < b.len() && b[i] == t;
        assert((a + b)[a.len() + i] == t);
    }
    if (a + b).contains(t) {
        let i = choose|i: int| 0 <= i < (a + b).len() && (a + b)[i] == t;
        if i < a.len() {
            assert(a[i] == t);
        } else {
            assert(b[i - a.len()] == t);
        }
    }
}

/// The labels of a device list are the labels of its devices.
proof fn lemma_labels_of_contains(direction: DeviceDirection, names: Seq<String>, t: Seq<char>)
    ensures
        labels_of(direction, names).contains(t) <==> exists|i: int|
            0 <= i < names.len() && t == label_spec(direction, (#[trigger] names[i])@),
{
    let l = labels_of(direction, names);
    if l.contains(t) {
        let i = choose|i: int| 0 <= i < l.len() && l[i] == t;
        assert(t == label_spec(direction, names[i]@));
    }
    if exists|i: int| 0 <= i < names.len() && t == label_spec(direction, (#[trigger] names[i])@) {
        let i = choose|i: int|
            0 <= i < names.len() && t == label_spec(direction, (#[trigger] names[i])@);
        assert(l[i] == t);
    }
}

/// The labels of the catalogue are exactly: the label of the default output
/// and of the default input, where there are such devices, and the label of
/// every listed output and every listed input device.
pub proof fn law_catalog_membership(
    default_output: Option<String>,
    default_input: Option<String>,
    outputs: Seq<String>,
    inputs: Seq<String>,
    t: Seq<char>,
)
    ensures
        catalog_labels(default_output, default_input, outputs, inputs).contains(t) <==> {
            ||| default_output matches Some(n) && t == label_spec(DeviceDirection::Output, n@)
            ||| default_input matches Some(n) && t == label_spec(DeviceDirection::Input, n@)
            ||| exists|i: int|
                0 <= i < outputs.len() && t == label_spec(
                    DeviceDirection::Output,
                    (#[trigger] outputs[i])@,
                )
            ||| exists|i: int|
                0 <= i < inputs.len() && t == label_spec(DeviceDirection::Input, (#[trigger] inputs[i])@)
        },
{
    let a = optional_labels(DeviceDirection::Output, default_output);
    let b = optional_labels(DeviceDirection::Input, default_input);
    let c = labels_of(DeviceDirection::Output, outputs);
    let d = labels_of(DeviceDirection::Input, inputs);
    lemma_concat_contains(a + b + c, d, t);
    lemma_concat_contains(a + b, c, t);
    lemma_concat_contains(a, b, t);
    lemma_labels_of_contains(DeviceDirection::Output, outputs, t);
    lemma_labels_of_contains(DeviceDirection::Input, inputs, t);
    if a.contains(t) {
        let i = choose|i: int| 0 <= i < a.len() && a[i] == t;
    }
    if default_output matches Some(n) && t == label_spec(DeviceDirection::Output, n@) {
        assert(a[0] == t);
    }
    if b.contains(t) {
        let i = choose|i: int| 0 <= i < b.len() && b[i] == t;
    }
    if default_input matches Some(n) && t == label_spec(DeviceDirection::Input, n@) {
        assert(b[0] == t);
    }
}

/// Inserting `x` where everything before is less and everything after is
/// greater keeps a sequence strictly sorted.
proof fn lemma_insert_sorted(s: Seq<Seq<char>>, p: int, x: Seq<char>)
    requires
        strictly_sorted(s),
        0 <= p <= s.len(),
        forall|i: int| 0 <= i < p ==> lex_less(#[trigger] s[i], x),
        p < s.len() ==> lex_less(x, s[p]),
    ensures
        strictly_sorted(s.insert(p, x)),
{
    let t = s.insert(p, x);
    assert forall|i: int, j: int| 0 <= i < j < t.len() implies lex_less(
        #[trigger] t[i],
        #[trigger] t[j],
    ) by {
        if j < p {
            assert(t[i] == s[i] && t[j] == s[j]);
        } else if j == p {
            assert(t[i] == s[i]);
        } else if i < p {
            assert(t[i] == s[i] && t[j] == s[j - 1]);
            if j - 1 > p {
                assert(lex_less(s[p], s[j - 1]));
                lemma_lex_transitive(x, s[p], s[j - 1]);
            }
            lemma_lex_transitive(s[i], x, s[j - 1]);
        } else if i == p {
            assert(t[j] == s[j - 1]);
            if j - 1 > p {
                assert(lex_less(s[p], s[j - 1]));
                lemma_lex_transitive(x, s[p], s[j - 1]);
            }
        } else {
            assert(t[i] == s[i - 1] && t[j] == s[j - 1]);
        }
    }
}

/// The distinct strings of `items`, in strictly increasing order: what
/// sorting `items` and removing adjacent duplicates gives.
pub fn sorted_unique(items: &Vec<String>) -> (r: Vec<String>)
    ensures
        strictly_sorted(keys(r@)),
        forall|t: Seq<char>| keys(r@).contains(t) <==> keys(items@).contains(t),
{
    let mut out: Vec<String> = Vec::new();
    let mut out_keys: Vec<Vec<char>> = Vec::new();
    let n = items.len();
    let mut k: usize = 0;
    while k < n
        invariant
            n == items.len(),
            k <= n,
            out.len() == out_keys.len(),
            forall|i: int| 0 <= i < out.len() ==> (#[trigger] out_keys@[i])@ == out@[i]@,
            strictly_sorted(keys(out@)),
            forall|t: Seq<char>|
                keys(out@).contains(t) <==> keys(items@.take(k as int)).contains(t),
        decreases n - k,
    {
        let x = chars_of(items[k].as_str());
        let mut p: usize = 0;
        while p < out_keys.len() && lex_less_chars(&out_keys[p], &x)
            invariant
                p <= out_keys.len(),
                out.len() == out_keys.len(),
                forall|i: int| 0 <= i < out.len() ==> (#[trigger] out_keys@[i])@ == out@[i]@,
                forall|i: int| 0 <= i < p ==> lex_less(#[trigger] keys(out@)[i], x@),
            decreases out_keys.len() - p,
        {
            p = p + 1;
        }
        let ghost old_keys = keys(out@);
        assert(keys(items@.take(k + 1)) =~= keys(items@.take(k as int)).push(x@));
        if p < out_keys.len() && !lex_less_chars(&x, &out_keys[p]) {
            // out[p] is neither less nor greater than x: it is x
            proof {
                if old_keys[p as int] != x@ {
                    lemma_lex_total(old_keys[p as int], x@);
                }
                assert(old_keys[p as int] == x@);
                assert forall|t: Seq<char>| keys(out@).contains(t) <==> keys(
                    items@.take(k + 1),
                ).contains(t) by {
                    lemma_push_contains(keys(items@.take(k as int)), x@, t);
                    if t == x@ {
                        assert(keys(out@)[p as int] == t);
                    }
                }
            }
        } else {
            proof {
                if p < out_keys.len() {
                    if old_keys[p as int] != x@ {
                        lemma_lex_total(old_keys[p as int], x@);
                    } else {
                        lemma_lex_irreflexive(x@);
                    }
                }
                lemma_insert_sorted(old_keys, p as int, x@);
            }
            let ghost old_key_vecs = out_keys@;
            let s = items[k].clone();
            out.insert(p, s);
            out_keys.insert(p, x);
            proof {
                assert(keys(out@) =~= old_keys.insert(p as int, x@));
                assert forall|i: int| 0 <= i < out.len() implies (#[trigger] out_keys@[i])@
                    == out@[i]@ by {
                    if i > p {
                        assert(out_keys@[i] == old_key_vecs[i - 1]);
                    }
                }
                assert forall|t: Seq<char>| keys(out@).contains(t) <==> keys(
                    items@.take(k + 1),
                ).contains(t) by {
                    lemma_push_contains(keys(items@.take(k as int)), x@, t);
                    if old_keys.contains(t) {
                        let i = choose|i: int| 0 <= i < old_keys.len() && old_keys[i] == t;
                        if i < p {
                            assert(keys(out@)[i] == t);
                        } else {
                            assert(keys(out@)[i + 1] == t);
                        }
                    }
                    if t == x@ {
                        assert(keys(out@)[p as int] == t);
                    }
                    if keys(out@).contains(t) {
                        let i = choose|i: int| 0 <= i < keys(out@).len() && keys(out@)[i] == t;
                        if i < p {
                            assert(old_keys[i] == t);
                        } else if i > p {
                            assert(old_keys[i - 1] == t);
                        }
                    }
                }
            }
        }
        k = k + 1;
    }
    assert(items@.take(n as int) =~= items@);
    out
}

/// The catalogue of audio devices: every device labelled with its direction,
/// sorted, each label once. `default_output` and `default_input` are the
/// system's default devices (`None` where there is none or its name could
/// not be read); `outputs` and `inputs` the names of all devices.
pub fn device_catalog(
    default_output: &Option<String>,
    default_input: &Option<String>,
    outputs: &Vec<String>,
    inputs: &Vec<String>,
) -> (r: Vec<String>)
    ensures
        strictly_sorted(keys(r@)),
        forall|t: Seq<char>|
            keys(r@).contains(t) <==> catalog_labels(
                *default_output,
                *default_input,
                outputs@,
                inputs@,
            ).contains(t),
        forall|i: int|
            0 <= i < outputs.len() ==> keys(r@).contains(
                label_spec(DeviceDirection::Output, (#[trigger] outputs@[i])@),
            ),
        forall|i: int|
            0 <= i < inputs.len() ==> keys(r@).contains(
                label_spec(DeviceDirection::Input, (#[trigger] inputs@[i])@),
            ),
        *default_output matches Some(n) ==> keys(r@).contains(
            label_spec(DeviceDirection::Output, n@),
        ),
        *default_input matches Some(n) ==> keys(r@).contains(label_spec(DeviceDirection::Input, n@)),
        forall|t: Seq<char>|
            #![trigger keys(r@).contains(t)]
            keys(r@).contains(t) ==> {
                ||| *default_output matches Some(n) && t == label_spec(DeviceDirection::Output, n@)
                ||| *default_input matches Some(n) && t == label_spec(DeviceDirection::Input, n@)
                ||| exists|i: int|
                    0 <= i < outputs.len() && t == label_spec(
                        DeviceDirection::Output,
                        (#[trigger] outputs@[i])@,
                    )
                ||| exists|i: int|
                    0 <= i < inputs.len() && t == label_spec(
                        DeviceDirection::Input,
                        (#[trigger] inputs@[i])@,
                    )
            },
{
    let mut labels: Vec<String> = Vec::new();
    if let Some(name) = default_output {
        labels.push(device_label(DeviceDirection::Output, name.as_str()));
    }
    if let Some(name) = default_input {
        labels.push(device_label(DeviceDirection::Input, name.as_str()));
    }
    let ghost head = optional_labels(DeviceDirection::Output, *default_output) + optional_labels(
        DeviceDirection::Input,
        *default_input,
    );
    assert(keys(labels@) =~= head);
    let mut i: usize = 0;
    while i < outputs.len()
        invariant
            i <= outputs.len(),
            keys(labels@) =~= head + labels_of(DeviceDirection::Output, outputs@.take(i as int)),
        decreases outputs.len() - i,
    {
        let ghost before = keys(labels@);
        labels.push(device_label(DeviceDirection::Output, outputs[i].as_str()));
        assert(keys(labels@) =~= before.push(label_spec(DeviceDirection::Output, outputs@[i as int]@)));
        assert(outputs@.take(i + 1) =~= outputs@.take(i as int).push(outputs@[i as int]));
        assert(labels_of(DeviceDirection::Output, outputs@.take(i + 1)) =~= labels_of(
            DeviceDirection::Output,
            outputs@.take(i as int),
        ).push(label_spec(DeviceDirection::Output, outputs@[i as int]@)));
        i = i + 1;
    }
    assert(outputs@.take(outputs.len() as int) =~= outputs@);
    let ghost middle = head + labels_of(DeviceDirection::Output, outputs@);
    let mut j: usize = 0;
    while j < inputs.len()
        invariant
            j <= inputs.len(),
            keys(labels@) =~= middle + labels_of(DeviceDirection::Input, inputs@.take(j as int)),
        decreases inputs.len() - j,
    {
        let ghost before = keys(labels@);
        labels.push(device_label(DeviceDirection::Input, inputs[j].as_str()));
        assert(keys(labels@) =~= before.push(label_spec(DeviceDirection::Input, inputs@[j as int]@)));
        assert(inputs@.take(j + 1) =~= inputs@.take(j as int).push(inputs@[j as int]));
        assert(labels_of(DeviceDirection::Input, inputs@.take(j + 1)) =~= labels_of(
            DeviceDirection::Input,
            inputs@.take(j as int),
        ).push(label_spec(DeviceDirection::Input, inputs@[j as int]@)));
        j = j + 1;
    }
    assert(inputs@.take(inputs.len() as int) =~= inputs@);
    assert(keys(labels@) =~= catalog_labels(*default_output, *default_input, outputs@, inputs@));
    let r = sorted_unique(&labels);
    proof {
        assert forall|t: Seq<char>| keys(r@).contains(t) <==> {
            ||| *default_output matches Some(n) && t == label_spec(DeviceDirection::Output, n@)
            ||| *default_input matches Some(n) && t == label_spec(DeviceDirection::Input, n@)
            ||| exists|i: int|
                0 <= i < outputs.len() && t == label_spec(
                    DeviceDirection::Output,
                    (#[trigger] outputs@[i])@,
                )
            ||| exists|i: int|
                0 <= i < inputs.len() && t == label_spec(DeviceDirection::Input, (#[trigger] inputs@[i])@)
        } by {
            law_catalog_membership(*default_output, *default_input, outputs@, inputs@, t);
        }
        assert forall|i: int| 0 <= i < outputs.len() implies keys(r@).contains(
            label_spec(DeviceDirection::Output, (#[trigger] outputs@[i])@),
        ) by {
            let t = label_spec(DeviceDirection::Output, outputs@[i]@);
            law_catalog_membership(*default_output, *default_input, outputs@, inputs@, t);
        }
        assert forall|i: int| 0 <= i < inputs.len() implies keys(r@).contains(
            label_spec(DeviceDirection::Input, (#[trigger] inputs@[i])@),
        ) by {
            let t = label_spec(DeviceDirection::Input, inputs@[i]@);
            law_catalog_membership(*default_output, *default_input, outputs@, inputs@, t);
        }
        if let Some(n) = default_output {
            law_catalog_membership(
                *default_output,
                *default_input,
                outputs@,
                inputs@,
                label_spec(DeviceDirection::Output, n@),
            );
        }
        if let Some(n) = default_input {
            law_catalog_membership(
                *default_output,
                *default_input,
                outputs@,
                inputs@,
                label_spec(DeviceDirection::Input, n@),
            );
        }
    }
    r
}

/// The first device of the catalogue that is an output, if any.
pub fn default_output_device(devices: &Vec<String>) -> (r: Option<String>)
    ensures
        r is None <==> forall|i: int|
            0 <= i < devices.len() ==> !has_prefix(#[trigger] devices@[i]@, "output: "@),
        r matches Some(d) ==> exists|i: int|
            {
                &&& 0 <= i < devices.len()
                &&& d == devices@[i]
                &&& has_prefix(devices@[i]@, "output: "@)
                &&& forall|j: int| 0 <= j < i ==> !has_prefix(#[trigger] devices@[j]@, "output: "@)
            },
{
    let prefix = chars_of("output: ");
    let mut i: usize = 0;
    while i < devices.len()
        invariant
            i <= devices.len(),
            prefix@ == "output: "@,
            forall|j: int| 0 <= j < i ==> !has_prefix(#[trigger] devices@[j]@, "output: "@),
        decreases devices.len() - i,
    {
        let name = chars_of(devices[i].as_str());
        if starts_with_chars(&name, &prefix) {
            return Some(devices[i].clone());
        }
        i = i + 1;
    }
    None
}

/// The device name that a catalogue label asks for: the label without its
/// `output: ` or `input: ` prefix, trimmed; `None` for a label with neither.
pub fn requested_device_name(label: &str) -> (r: Option<String>)
    ensures
        r is None <==> requested_name_spec(label@) is None,
        r matches Some(n) ==> requested_name_spec(label@) == Some(n@),
{
    let chars = chars_of(label);
    let output_prefix = chars_of("output: ");
    let input_prefix = chars_of("input: ");
    if starts_with_chars(&chars, &output_prefix) {
        let rest = label.substring_char(output_prefix.len(), chars.len());
        Some(trim_text(rest))
    } else if starts_with_chars(&chars, &input_prefix) {
        let rest = label.substring_char(input_prefix.len(), chars.len());
        Some(trim_text(rest))
    } else {
        None
    }
}

/// The position of the first listed device named `name`, if any.
pub fn find_named_device(names: &Vec<Option<String>>, name: &String) -> (r: Option<usize>)
    ensures
        r is None <==> !has_named(names@, name@),
        r matches Some(i) ==> first_named(names@, name@, i as int),
{
    let mut i: usize = 0;
    while i < names.len()
        invariant
            i <= names.len(),
            forall|j: int| 0 <= j < i ==> !is_named(#[trigger] names@[j], name@),
        decreases names.len() - i,
    {
        match &names[i] {
            Some(n) => {
                if n.eq(name) {
                    return Some(i);
                }
            },
            None => {},
        }
        i = i + 1;
    }
    None
}

/// The input device to record from for a catalogue label: the first listed
/// input device with the requested name; otherwise the default input;
/// `None` when there is no default input to fall back on.
pub fn choose_input_device(
    label: &str,
    input_names: &Vec<Option<String>>,
    has_default_input: bool,
) -> (r: Option<InputChoice>)
    ensures
        r == input_choice_spec(label@, input_names@, has_default_input),
{
    if let Some(name) = requested_device_name(label) {
        if let Some(i) = find_named_device(input_names, &name) {
            proof {
                let j = choose|j: int| #[trigger] first_named(input_names@, name@, j);
                if j < i {
                    assert(!is_named(input_names@[j], name@));
                } else if j > i {
                    assert(!is_named(input_names@[i as int], name@));
                }
            }
            return Some(InputChoice::Listed(i));
        }
    }
    if has_default_input {
        Some(InputChoice::DefaultInput)
    } else {
        None
    }
}

/// The name under which the active device is shown: the catalogue label that
/// was chosen, or, when none was, the device's own name (`None` where it could
/// not be read, shown as `Default input`).
pub fn active_device_label(label: &str, device_name: Option<String>) -> (r: String)
    ensures
        r@ == (if label@.len() == 0 {
            match device_name {
                Some(n) => n@,
                None => "Default input"@,
            }
        } else {
            label@
        }),
{
    if label.is_empty() {
        match device_name {
            Some(n) => n,
            None => String::from_str("Default input"),
        }
    } else {
        String::from_str(label)
    }
}

/// A strictly sorted list holds no label twice.
pub proof fn law_sorted_has_no_duplicates(s: Seq<Seq<char>>)
    requires
        strictly_sorted(s),
    ensures
        forall|i: int, j: int| 0 <= i < s.len() && 0 <= j < s.len() && i != j ==> s[i] != s[j],
{
    assert forall|i: int, j: int| 0 <= i < s.len() && 0 <= j < s.len() && i != j implies s[i]
        != s[j] by {
        if i < j {
            assert(lex_less(s[i], s[j]));
            lemma_lex_irreflexive(s[i]);
        } else {
            assert(lex_less(s[j], s[i]));
            lemma_lex_irreflexive(s[j]);
        }
    }
}

/// Two strictly sorted lists with the same labels are the same list: the
/// catalogue is determined by the set of labels alone, whatever order the
/// devices were listed in.
pub proof fn law_sorted_determined(a: Seq<Seq<char>>, b: Seq<Seq<char>>)
    requires
        strictly_sorted(a),
        strictly_sorted(b),
        forall|t: Seq<char>| a.contains(t) <==> b.contains(t),
    ensures
        a == b,
    decreases a.len(),
{
    if a.len() == 0 {
        if b.len() > 0 {
            assert(b.contains(b[0]));
        }
        assert(a =~= b);
    } else {
        assert(a.contains(a[0]));
        let k = choose|k: int| 0 <= k < b.len() && b[k] == a[0];
        assert(b.contains(b[0]));
        let m = choose|m: int| 0 <= m < a.len() && a[m] == b[0];
        if k > 0 {
            assert(lex_less(b[0], b[k]));
            if m > 0 {
                assert(lex_less(a[0], a[m]));
                lemma_lex_transitive(a[0], b[0], a[0]);
            }
            lemma_lex_irreflexive(a[0]);
        }
        assert(a[0] == b[0]);
        let a1 = a.drop_first();
        let b1 = b.drop_first();
        assert(strictly_sorted(a1)) by {
            assert forall|i: int, j: int| 0 <= i < j < a1.len() implies lex_less(
                #[trigger] a1[i],
                #[trigger] a1[j],
            ) by {
                assert(a1[i] == a[i + 1] && a1[j] == a[j + 1]);
            }
        }
        assert(strictly_sorted(b1)) by {
            assert forall|i: int, j: int| 0 <= i < j < b1.len() implies lex_less(
                #[trigger] b1[i],
                #[trigger] b1[j],
            ) by {
                assert(b1[i] == b[i + 1] && b1[j] == b[j + 1]);
            }
        }
        assert forall|t: Seq<char>| a1.contains(t) <==> b1.contains(t) by {
            if a1.contains(t) {
                let i = choose|i: int| 0 <= i < a1.len() && a1[i] == t;
                assert(a[i + 1] == t);
                assert(lex_less(a[0], a[i + 1]));
                lemma_lex_irreflexive(t);
                assert(b.contains(t));
                let j = choose|j: int| 0 <= j < b.len() && b[j] == t;
                assert(j != 0);
                assert(b1[j - 1] == t);
            }
            if b1.contains(t) {
                let i = choose|i: int| 0 <= i < b1.len() && b1[i] == t;
                assert(b[i + 1] == t);
                assert(lex_less(b[0], b[i + 1]));
                lemma_lex_irreflexive(t);
                assert(a.contains(t));
                let j = choose|j: int| 0 <= j < a.len() && a[j] == t;
                assert(j != 0);
                assert(a1[j - 1] == t);
            }
        }
        law_sorted_determined(a1, b1);
        assert(a =~= b) by {
            assert forall|i: int| 0 <= i < a.len() implies a[i] == b[i] by {
                if i > 0 {
                    assert(a[i] == a1[i - 1] && b[i] == b1[i - 1]);
                }
            }
        }
    }
}

/// The name a label asks for is the label's text after its direction prefix
/// (`output: ` first, then `input: `), trimmed; a label with neither prefix
/// asks for none.
pub proof fn law_requested_name(label: Seq<char>)
    ensures
        has_prefix(label, "output: "@) ==> requested_name_spec(label) == Some(
            trim_spec(label.skip("output: "@.len() as int)),
        ),
        !has_prefix(label, "output: "@) && has_prefix(label, "input: "@) ==> requested_name_spec(
            label,
        ) == Some(trim_spec(label.skip("input: "@.len() as int))),
        !has_prefix(label, "output: "@) && !has_prefix(label, "input: "@) ==> requested_name_spec(
            label,
        ) is None,
{
}

/// A catalogue label asks for the (trimmed) name of the device it labels,
/// whichever its direction.
pub proof fn law_label_round_trip(direction: DeviceDirection, name: Seq<char>)
    ensures
        requested_name_spec(label_spec(direction, name)) == Some(trim_spec(name)),
{
    reveal_strlit("output: ");
    reveal_strlit("input: ");
    let label = label_spec(direction, name);
    let p = direction_prefix(direction);
    assert(label.skip(p.len() as int) =~= name);
    assert(label.take(p.len() as int) =~= p);
    if direction == DeviceDirection::Input {
        assert(label[0] == 'i');
        if has_prefix(label, "output: "@) {
            assert(label.take("output: "@.len() as int)[0] == label[0]);
            assert("output: "@[0] == 'o');
        }
        assert(!has_prefix(label, "output: "@));
    }
}

/// The input device a label selects: whatever its direction prefix, when
/// some listed input device has the requested name, the first such device;
/// otherwise the default input when there is one, and none when there is not.
pub proof fn law_input_choice(label: Seq<char>, names: Seq<Option<String>>, has_default_input: bool)
    ensures
        forall|n: Seq<char>|
            requested_name_spec(label) == Some(n) && #[trigger] has_named(names, n) ==> exists|
                i: int,
            |
                first_named(names, n, i) && input_choice_spec(label, names, has_default_input)
                    == Some(InputChoice::Listed(i as usize)),
        !(requested_name_spec(label) matches Some(n) && has_named(names, n)) ==> input_choice_spec(
            label,
            names,
            has_default_input,
        ) == (if has_default_input {
            Some(InputChoice::DefaultInput)
        } else {
            None
        }),
        input_choice_spec(label, names, has_default_input) matches Some(InputChoice::Listed(i))
            ==> i < names.len(),
{
    assert forall|n: Seq<char>|
        requested_name_spec(label) == Some(n) && #[trigger] has_named(names, n) implies exists|
            i: int,
        |
            first_named(names, n, i) && input_choice_spec(label, names, has_default_input)
                == Some(InputChoice::Listed(i as usize)) by {
        lemma_first_named_exists(names, n);
        let i = choose|i: int| #[trigger] first_named(names, n, i);
        assert(first_named(names, n, i));
    }
    if let Some(n) = requested_name_spec(label) {
        if has_named(names, n) {
            lemma_first_named_exists(names, n);
        }
    }
}

/// When some listed device has a name, there is a first one.
proof fn lemma_first_named_exists(names: Seq<Option<String>>, name: Seq<char>)
    requires
        has_named(names, name),
    ensures
        exists|i: int| #[trigger] first_named(names, name, i),
    decreases names.len(),
{
    if is_named(names[0], name) {
        assert(first_named(names, name, 0));
    } else {
        let rest = names.drop_first();
        let k = choose|k: int| 0 <= k < names.len() && is_named(#[trigger] names[k], name);
        assert(rest[k - 1] == names[k]);
        lemma_first_named_exists(rest, name);
        let j = choose|j: int| #[trigger] first_named(rest, name, j);
        assert forall|m: int| 0 <= m < j + 1 implies !is_named(#[trigger] names[m], name) by {
            if m > 0 {
                assert(names[m] == rest[m - 1]);
            }
        }
        assert(first_named(names, name, j + 1));
    }
}

} // verus!
