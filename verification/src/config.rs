//! The project configuration file as text: recording the chosen provider and
//! model without losing anything else the user wrote there.
use vstd::prelude::*;
use crate::path::{join, join_all};
use crate::text::{
    from_chars, index_of_char_from, lines, push_str, slice_chars, split_lines, to_chars, trim,
    trim_chars,
};

verus! {

/// Everything before the first `=` of a line, or the whole line.
pub open spec fn before_equals(line: Seq<char>) -> Seq<char> {
    if exists|k: int| 0 <= k < line.len() && line[k] == '=' {
        line.take(choose_first_equals(line))
    } else {
        line
    }
}

/// The position of the first `=` of a line that has one.
pub open spec fn choose_first_equals(line: Seq<char>) -> int {
    choose|k: int| 0 <= k < line.len() && line[k] == '=' && forall|j: int| 0 <= j < k ==> line[j] != '='
}

/// The key a line sets: what stands before its first `=`, trimmed.
pub open spec fn line_key(line: Seq<char>) -> Seq<char> {
    trim(before_equals(line))
}

/// Whether a line sets the provider or the model.
pub open spec fn sets_choice(line: Seq<char>) -> bool {
    line_key(line) == "provider"@ || line_key(line) == "model"@
}

/// The lines that set neither the provider nor the model, in order.
pub open spec fn other_lines(ls: Seq<Seq<char>>) -> Seq<Seq<char>>
    decreases ls.len(),
{
    if ls.len() == 0 {
        seq![]
    } else if sets_choice(ls.last()) {
        other_lines(ls.drop_last())
    } else {
        other_lines(ls.drop_last()).push(ls.last())
    }
}

/// The configuration file after recording a provider and a model: those two
/// keys first, then every other line as it was, with the surrounding blank
/// space trimmed away.
pub open spec fn remembered(existing: Seq<char>, provider: Seq<char>, model: Seq<char>) -> Seq<char> {
    let kept = trim(join(other_lines(lines(existing)), '\n'));
    let head = "provider = \""@ + provider + "\"\nmodel = \""@ + model + "\"\n"@;
    if kept.len() > 0 {
        head + kept + "\n"@
    } else {
        head
    }
}

/// The key of one line.
fn key_of_line(line: &Vec<char>) -> (r: Vec<char>)
    ensures
        r@ == line_key(line@),
{
    let k = index_of_char_from(line, '=', 0);
    let before = slice_chars(line, 0, k);
    proof {
        if k < line.len() {
            assert(line@[k as int] == '=');
            let c = choose_first_equals(line@);
            assert(0 <= k < line@.len() && line@[k as int] == '=' && forall|j: int|
                0 <= j < k ==> line@[j] != '=');
            if c != k {
                if c < k {
                    assert(line@[c] == '=');
                } else {
                    assert(line@[k as int] == '=');
                }
            }
            assert(before@ =~= line@.take(k as int));
        } else {
            assert(before@ =~= line@);
        }
    }
    trim_chars(&before)
}

/// The configuration file's text after recording the chosen provider and
/// model.
pub fn remember_choice(existing: &str, provider: &str, model: &str) -> (r: String)
    ensures
        r@ == remembered(existing@, provider@, model@),
{
    let ls = split_lines(&to_chars(existing));
    let ghost lv = lines(existing@);
    let mut kept: Vec<Vec<char>> = Vec::new();
    let mut i: usize = 0;
    let provider_key = to_chars("provider");
    let model_key = to_chars("model");
    proof {
        assert(lv.take(0) =~= Seq::<Seq<char>>::empty());
    }
    while i < ls.len()
        invariant
            i <= ls.len(),
            ls@.len() == lv.len(),
            forall|j: int| 0 <= j < ls@.len() ==> #[trigger] ls@[j]@ == lv[j],
            provider_key@ == "provider"@,
            model_key@ == "model"@,
            kept@.map_values(|v: Vec<char>| v@) == other_lines(lv.take(i as int)),
        decreases ls.len() - i,
    {
        let key = key_of_line(&ls[i]);
        proof {
            assert(lv.take(i + 1).drop_last() =~= lv.take(i as int));
            assert(lv.take(i + 1).last() == ls@[i as int]@);
        }
        if !crate::text::chars_eq(&key, &provider_key) && !crate::text::chars_eq(&key, &model_key) {
            let ghost before = kept@.map_values(|v: Vec<char>| v@);
            kept.push(ls[i].clone());
            proof {
                assert(kept@.map_values(|v: Vec<char>| v@) =~= before.push(ls@[i as int]@));
            }
        }
        i += 1;
    }
    proof {
        assert(lv.take(ls.len() as int) =~= lv);
    }
    let joined = join_all(&kept, '\n');
    let kept_text = trim_chars(&joined);
    let mut out = String::from_str("provider = \"");
    push_str(&mut out, provider);
    push_str(&mut out, "\"\nmodel = \"");
    push_str(&mut out, model);
    push_str(&mut out, "\"\n");
    if kept_text.len() > 0 {
        let tail = from_chars(&kept_text);
        push_str(&mut out, tail.as_str());
        push_str(&mut out, "\n");
    }
    proof {
        assert(joined@ == join(kept@.map_values(|v: Vec<char>| v@), '\n'));
    }
    out
}


/// The settings a configuration file decides, with the budget left to the
/// caller's own type.
#[derive(Debug, Clone, PartialEq)]
pub struct Settings<B> {
    pub provider: String,
    pub model: String,
    pub budget: B,
    pub system_prompt: Option<String>,
}

/// One configuration file: each setting it leaves out is `None`.
#[derive(Debug, Clone, PartialEq)]
pub struct Layer<B> {
    pub provider: Option<String>,
    pub model: Option<String>,
    pub budget: Option<B>,
    pub system_prompt: Option<String>,
}

/// A setting after a layer: the layer's value where it has one.
pub open spec fn overridden<T>(layer: Option<T>, base: T) -> T {
    match layer {
        Some(v) => v,
        None => base,
    }
}

/// Applies a layer over `base`: each setting the layer gives replaces the
/// one below it, and every other setting is kept.
pub fn apply_layer<B>(base: Settings<B>, layer: Layer<B>) -> (r: Settings<B>)
    ensures
        r.provider == overridden(layer.provider, base.provider),
        r.model == overridden(layer.model, base.model),
        r.budget == overridden(layer.budget, base.budget),
        r.system_prompt == (match layer.system_prompt {
            Some(p) => Some(p),
            None => base.system_prompt,
        }),
{
    let Settings { provider, model, budget, system_prompt } = base;
    Settings {
        provider: match layer.provider {
            Some(p) => p,
            None => provider,
        },
        model: match layer.model {
            Some(m) => m,
            None => model,
        },
        budget: match layer.budget {
            Some(b) => b,
            None => budget,
        },
        system_prompt: match layer.system_prompt {
            Some(p) => Some(p),
            None => system_prompt,
        },
    }
}


} // verus!
