//! Filters for the preview that is rendered ahead: effect plugins.

use crate::text::{join, joined, owned, same, views};
use vstd::prelude::*;
use vstd::string::*;

verus! {

/// What a parameter of a plugin is.
#[derive(Debug, Clone, Copy, PartialEq, Eq, Structural)]
pub enum Frei0rNativeType {
    Bool,
    Double,
    Color,
    Position,
    NativeString,
}

/// A parameter of a plugin, with the properties that make it up.
#[derive(Debug)]
pub struct NativeParam {
    pub native_type: Frei0rNativeType,
    pub properties: Vec<String>,
}

/// A property of a plugin, with the texts that it has where an effect does not set it.
#[derive(Debug)]
pub struct PluginParam {
    pub name: String,
    pub is_string: bool,
    pub default_number: String,
    pub default_string: Option<String>,
}

/// A plugin that was found.
#[derive(Debug)]
pub struct PluginInfo {
    pub ffmpeg_name: String,
    pub native_params: Vec<NativeParam>,
    pub params: Vec<PluginParam>,
}

/// A number of an effect: its text, and whether it is above one half.
#[derive(Debug)]
pub struct NumberSetting {
    pub name: String,
    pub text: String,
    pub above_half: bool,
}

/// A text of an effect.
#[derive(Debug)]
pub struct TextSetting {
    pub name: String,
    pub value: String,
}

/// An effect of a clip, with its plugin where that was found.
#[derive(Debug)]
pub struct EffectUse {
    pub enabled: bool,
    pub plugin_name: String,
    pub plugin: Option<PluginInfo>,
    pub numbers: Vec<NumberSetting>,
    pub texts: Vec<TextSetting>,
}

/// The place of a number among the first `n`.
pub open spec fn number_index(numbers: Seq<NumberSetting>, name: Seq<char>, n: nat) -> Option<int>
    decreases n,
{
    if n == 0 {
        None
    } else {
        match number_index(numbers, name, (n - 1) as nat) {
            Some(i) => Some(i),
            None => if numbers[n - 1].name@ == name {
                Some(n - 1)
            } else {
                None
            },
        }
    }
}

/// The text of a number, or `fallback` where the effect does not set it.
pub open spec fn number_text(
    numbers: Seq<NumberSetting>,
    name: Seq<char>,
    fallback: Seq<char>,
) -> Seq<char> {
    match number_index(numbers, name, numbers.len()) {
        Some(i) => numbers[i].text@,
        None => fallback,
    }
}

/// Zero as it is written.
pub open spec fn zero_text() -> Seq<char> {
    "0.000000"@
}

/// The place of a text among the first `n`.
pub open spec fn text_index(texts: Seq<TextSetting>, name: Seq<char>, n: nat) -> Option<int>
    decreases n,
{
    if n == 0 {
        None
    } else {
        match text_index(texts, name, (n - 1) as nat) {
            Some(i) => Some(i),
            None => if texts[n - 1].name@ == name {
                Some(n - 1)
            } else {
                None
            },
        }
    }
}

/// A text, or `fallback` where the effect does not set it.
pub open spec fn text_value(texts: Seq<TextSetting>, name: Seq<char>, fallback: Seq<char>) -> Seq<
    char,
> {
    match text_index(texts, name, texts.len()) {
        Some(i) => texts[i].value@,
        None => fallback,
    }
}

/// The text of property `i` of a parameter: zero where it has none.
pub open spec fn property_number(e: EffectUse, p: NativeParam, i: int) -> Seq<char> {
    if i < p.properties@.len() {
        number_text(e.numbers@, p.properties@[i]@, zero_text())
    } else {
        zero_text()
    }
}

/// The name of the first property of a parameter.
pub open spec fn first_property(p: NativeParam) -> Seq<char> {
    if p.properties@.len() > 0 {
        p.properties@[0]@
    } else {
        ""@
    }
}

/// The text of a parameter.
pub open spec fn native_text(e: EffectUse, p: NativeParam) -> Seq<char> {
    match p.native_type {
        Frei0rNativeType::Color => property_number(e, p, 0) + "/"@ + property_number(e, p, 1)
            + "/"@ + property_number(e, p, 2),
        Frei0rNativeType::Position => property_number(e, p, 0) + "/"@ + property_number(e, p, 1),
        Frei0rNativeType::NativeString => text_value(e.texts@, first_property(p), ""@),
        Frei0rNativeType::Bool => match number_index(
            e.numbers@,
            first_property(p),
            e.numbers@.len(),
        ) {
            Some(i) => if e.numbers@[i].above_half {
                "y"@
            } else {
                "n"@
            },
            None => "n"@,
        },
        Frei0rNativeType::Double => number_text(e.numbers@, first_property(p), zero_text()),
    }
}

/// The text of a property.
pub open spec fn param_text(e: EffectUse, p: PluginParam) -> Seq<char> {
    if p.is_string {
        text_value(
            e.texts@,
            p.name@,
            match p.default_string {
                Some(s) => s@,
                None => ""@,
            },
        )
    } else {
        number_text(e.numbers@, p.name@, p.default_number@)
    }
}

/// The texts of the parameters of an effect: those of the plugin in its order, or, where the plugin
/// was not found, the numbers of the effect.
pub open spec fn param_texts(e: EffectUse) -> Seq<Seq<char>> {
    match e.plugin {
        Some(info) => if info.native_params@.len() > 0 {
            info.native_params@.map_values(|p: NativeParam| native_text(e, p))
        } else {
            info.params@.map_values(|p: PluginParam| param_text(e, p))
        },
        None => e.numbers@.map_values(|n: NumberSetting| n.text@),
    }
}

/// The filter of one effect.
pub open spec fn effect_filter(e: EffectUse) -> Seq<char> {
    let name = match e.plugin {
        Some(info) => info.ffmpeg_name@,
        None => e.plugin_name@,
    };
    let params = join(param_texts(e), "|"@);
    if params.len() == 0 {
        ",frei0r=filter_name="@ + name
    } else {
        ",frei0r=filter_name="@ + name + ":filter_params="@ + params
    }
}

/// The filters of the first `n` effects, without those that are switched off.
pub open spec fn effect_filters(effects: Seq<EffectUse>, n: nat) -> Seq<char>
    decreases n,
{
    if n == 0 {
        ""@
    } else {
        let front = effect_filters(effects, (n - 1) as nat);
        if effects[n - 1].enabled {
            front + effect_filter(effects[n - 1])
        } else {
            front
        }
    }
}

fn find_number(numbers: &Vec<NumberSetting>, name: &str) -> (r: Option<usize>)
    ensures
        match r {
            Some(i) => i < numbers@.len() && number_index(numbers@, name@, numbers@.len()) == Some(
                i as int,
            ),
            None => number_index(numbers@, name@, numbers@.len()) is None,
        },
{
    let mut i: usize = 0;
    let mut found: Option<usize> = None;
    while i < numbers.len()
        invariant
            i <= numbers@.len(),
            match found {
                Some(f) => f < i && number_index(numbers@, name@, i as nat) == Some(f as int),
                None => number_index(numbers@, name@, i as nat) is None,
            },
        decreases numbers.len() - i,
    {
        if found.is_none() && same(&numbers[i].name, name) {
            found = Some(i);
        }
        i = i + 1;
    }
    found
}

fn find_text(texts: &Vec<TextSetting>, name: &str) -> (r: Option<usize>)
    ensures
        match r {
            Some(i) => i < texts@.len() && text_index(texts@, name@, texts@.len()) == Some(i as int),
            None => text_index(texts@, name@, texts@.len()) is None,
        },
{
    let mut i: usize = 0;
    let mut found: Option<usize> = None;
    while i < texts.len()
        invariant
            i <= texts@.len(),
            match found {
                Some(f) => f < i && text_index(texts@, name@, i as nat) == Some(f as int),
                None => text_index(texts@, name@, i as nat) is None,
            },
        decreases texts.len() - i,
    {
        if found.is_none() && same(&texts[i].name, name) {
            found = Some(i);
        }
        i = i + 1;
    }
    found
}

fn number_or(numbers: &Vec<NumberSetting>, name: &str, fallback: &str) -> (r: String)
    ensures
        r@ == number_text(numbers@, name@, fallback@),
{
    match find_number(numbers, name) {
        Some(i) => numbers[i].text.clone(),
        None => owned(fallback),
    }
}

fn text_or(texts: &Vec<TextSetting>, name: &str, fallback: &str) -> (r: String)
    ensures
        r@ == text_value(texts@, name@, fallback@),
{
    match find_text(texts, name) {
        Some(i) => texts[i].value.clone(),
        None => owned(fallback),
    }
}

fn property_or_zero(e: &EffectUse, p: &NativeParam, i: usize) -> (r: String)
    ensures
        r@ == property_number(*e, *p, i as int),
{
    if i < p.properties.len() {
        number_or(&e.numbers, &p.properties[i], "0.000000")
    } else {
        owned("0.000000")
    }
}

fn native(e: &EffectUse, p: &NativeParam) -> (r: String)
    ensures
        r@ == native_text(*e, *p),
{
    let first: String = if p.properties.len() > 0 {
        p.properties[0].clone()
    } else {
        owned("")
    };
    match p.native_type {
        Frei0rNativeType::Color => {
            let mut r = property_or_zero(e, p, 0);
            r.append("/");
            r.append(&property_or_zero(e, p, 1));
            r.append("/");
            r.append(&property_or_zero(e, p, 2));
            r
        },
        Frei0rNativeType::Position => {
            let mut r = property_or_zero(e, p, 0);
            r.append("/");
            r.append(&property_or_zero(e, p, 1));
            r
        },
        Frei0rNativeType::NativeString => text_or(&e.texts, &first, ""),
        Frei0rNativeType::Bool => match find_number(&e.numbers, &first) {
            Some(i) => if e.numbers[i].above_half {
                owned("y")
            } else {
                owned("n")
            },
            None => owned("n"),
        },
        Frei0rNativeType::Double => number_or(&e.numbers, &first, "0.000000"),
    }
}

fn param(e: &EffectUse, p: &PluginParam) -> (r: String)
    ensures
        r@ == param_text(*e, *p),
{
    if p.is_string {
        match &p.default_string {
            Some(s) => text_or(&e.texts, &p.name, s),
            None => text_or(&e.texts, &p.name, ""),
        }
    } else {
        number_or(&e.numbers, &p.name, &p.default_number)
    }
}

fn params_of(e: &EffectUse) -> (r: Vec<String>)
    ensures
        views(r@) == param_texts(*e),
{
    let mut r: Vec<String> = Vec::new();
    let mut i: usize = 0;
    match &e.plugin {
        Some(info) => {
            if info.native_params.len() > 0 {
                while i < info.native_params.len()
                    invariant
                        i <= info.native_params@.len(),
                        r@.len() == i,
                        forall|k: int|
                            0 <= k < i ==> (#[trigger] r@[k])@ == native_text(
                                *e,
                                info.native_params@[k],
                            ),
                    decreases info.native_params.len() - i,
                {
                    r.push(native(e, &info.native_params[i]));
                    i = i + 1;
                }
            } else {
                while i < info.params.len()
                    invariant
                        i <= info.params@.len(),
                        r@.len() == i,
                        forall|k: int|
                            0 <= k < i ==> (#[trigger] r@[k])@ == param_text(*e, info.params@[k]),
                    decreases info.params.len() - i,
                {
                    r.push(param(e, &info.params[i]));
                    i = i + 1;
                }
            }
        },
        None => {
            while i < e.numbers.len()
                invariant
                    i <= e.numbers@.len(),
                    r@.len() == i,
                    forall|k: int| 0 <= k < i ==> (#[trigger] r@[k])@ == e.numbers@[k].text@,
                decreases e.numbers.len() - i,
            {
                r.push(e.numbers[i].text.clone());
                i = i + 1;
            }
        },
    }
    proof {
        assert(views(r@) =~= param_texts(*e));
    }
    r
}

/// The filters of the effects of a clip.
pub fn prerender_build_frei0r_effects_filter(effects: &Vec<EffectUse>) -> (r: String)
    ensures
        r@ == effect_filters(effects@, effects@.len()),
{
    let mut r = owned("");
    let mut i: usize = 0;
    while i < effects.len()
        invariant
            i <= effects@.len(),
            r@ == effect_filters(effects@, i as nat),
        decreases effects.len() - i,
    {
        if effects[i].enabled {
            let params = joined(&params_of(&effects[i]), "|");
            let mut f = owned(",frei0r=filter_name=");
            match &effects[i].plugin {
                Some(info) => f.append(&info.ffmpeg_name),
                None => f.append(&effects[i].plugin_name),
            }
            if !params.as_str().is_empty() {
                f.append(":filter_params=");
                f.append(&params);
            }
            r.append(&f);
        }
        i = i + 1;
    }
    r
}

/// Effects that are switched off leave no trace.
pub proof fn lemma_disabled_effects(effects: Seq<EffectUse>, n: nat)
    requires
        n <= effects.len(),
        forall|i: int| 0 <= i < n ==> !(#[trigger] effects[i]).enabled,
    ensures
        effect_filters(effects, n) == ""@,
    decreases n,
{
    if n > 0 {
        lemma_disabled_effects(effects, (n - 1) as nat);
    }
}

/// Each effect that is on adds its own filter behind those before it, and one that is off adds
/// nothing.
pub proof fn lemma_effects_in_order(effects: Seq<EffectUse>, e: EffectUse)
    ensures
        effect_filters(effects.push(e), effects.len() + 1) == effect_filters(effects, effects.len())
            + (if e.enabled {
            effect_filter(e)
        } else {
            Seq::empty()
        }),
{
    lemma_effects_of_front(effects, effects.push(e), effects.len());
    let front = effect_filters(effects, effects.len());
    assert(front + Seq::<char>::empty() =~= front);
}

proof fn lemma_effects_of_front(a: Seq<EffectUse>, b: Seq<EffectUse>, n: nat)
    requires
        n <= a.len(),
        n <= b.len(),
        forall|k: int| 0 <= k < n ==> a[k] == b[k],
    ensures
        effect_filters(a, n) == effect_filters(b, n),
    decreases n,
{
    if n > 0 {
        lemma_effects_of_front(a, b, (n - 1) as nat);
    }
}

/// The setting under a name is the first that has it; the fallback counts only where none does.
pub proof fn lemma_number_text(numbers: Seq<NumberSetting>, name: Seq<char>, fallback: Seq<char>)
    ensures
        forall|k: int|
            0 <= k < numbers.len() && (#[trigger] numbers[k]).name@ == name && (forall|j: int|
                0 <= j < k ==> (#[trigger] numbers[j]).name@ != name) ==> number_text(
                numbers,
                name,
                fallback,
            ) == numbers[k].text@,
        (forall|k: int| 0 <= k < numbers.len() ==> (#[trigger] numbers[k]).name@ != name)
            ==> number_text(numbers, name, fallback) == fallback,
{
    lemma_number_index(numbers, name, numbers.len());
}

proof fn lemma_number_index(numbers: Seq<NumberSetting>, name: Seq<char>, n: nat)
    requires
        n <= numbers.len(),
    ensures
        match number_index(numbers, name, n) {
            Some(i) => 0 <= i < n && numbers[i].name@ == name && forall|j: int|
                0 <= j < i ==> (#[trigger] numbers[j]).name@ != name,
            None => forall|j: int| 0 <= j < n ==> (#[trigger] numbers[j]).name@ != name,
        },
    decreases n,
{
    if n > 0 {
        lemma_number_index(numbers, name, (n - 1) as nat);
    }
}

/// A colour is told by its three parts in order, a position by its two, a switch by whether it is
/// above the middle, and a number by itself.
pub proof fn lemma_native_text(e: EffectUse, p: NativeParam)
    ensures
        p.native_type == Frei0rNativeType::Color ==> native_text(e, p) == property_number(e, p, 0)
            + "/"@ + property_number(e, p, 1) + "/"@ + property_number(e, p, 2),
        p.native_type == Frei0rNativeType::Position ==> native_text(e, p) == property_number(
            e,
            p,
            0,
        ) + "/"@ + property_number(e, p, 1),
        p.native_type == Frei0rNativeType::Double && p.properties@.len() > 0 ==> native_text(e, p)
            == property_number(e, p, 0),
        p.native_type == Frei0rNativeType::Bool ==> native_text(e, p) == "y"@ || native_text(e, p)
            == "n"@,
        p.native_type == Frei0rNativeType::Bool && p.properties@.len() > 0 ==> forall|k: int|
            0 <= k < e.numbers@.len() && (#[trigger] e.numbers@[k]).name@ == p.properties@[0]@ && (
            forall|j: int| 0 <= j < k ==> (#[trigger] e.numbers@[j]).name@ != p.properties@[0]@)
                ==> (native_text(e, p) == "y"@ <==> e.numbers@[k].above_half),
        forall|i: int|
            0 <= i < p.properties@.len() ==> #[trigger] property_number(e, p, i) == number_text(
                e.numbers@,
                p.properties@[i]@,
                "0.000000"@,
            ),
{
    reveal_strlit("y");
    reveal_strlit("n");
    assert("y"@[0] != "n"@[0]);
    if p.properties@.len() > 0 {
        lemma_number_index(e.numbers@, p.properties@[0]@, e.numbers@.len());
    }
}

/// A filter names the plugin, and its settings in order with bars between them, where it has any.
pub proof fn lemma_effect_filter(e: EffectUse)
    ensures
        e.plugin matches Some(info) ==> (param_texts(e).len() == 0 ==> effect_filter(e)
            == ",frei0r=filter_name="@ + info.ffmpeg_name@),
        e.plugin is None && e.numbers@.len() == 0 ==> effect_filter(e) == ",frei0r=filter_name="@
            + e.plugin_name@,
        e.plugin matches Some(info) ==> (join(param_texts(e), "|"@).len() > 0 ==> effect_filter(e)
            == ",frei0r=filter_name="@ + info.ffmpeg_name@ + ":filter_params="@ + join(
            param_texts(e),
            "|"@,
        )),
        e.plugin is None && join(param_texts(e), "|"@).len() > 0 ==> effect_filter(e)
            == ",frei0r=filter_name="@ + e.plugin_name@ + ":filter_params="@ + join(
            param_texts(e),
            "|"@,
        ),
{
}

} // verus!
