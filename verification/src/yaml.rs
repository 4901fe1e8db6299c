//! A plain value tree for YAML-shaped documents.
//!
//! The descriptor schema is decoded from this tree and re-serialized to it;
//! the tree itself holds only plain values, with numeric scalars carried by
//! their textual form.  `YamlV` is the mathematical abstraction of a tree,
//! used by every contract.

use vstd::prelude::*;

verus! {

broadcast use vstd::std_specs::vec::axiom_vec_index_decreases, vstd::std_specs::vec::axiom_vec_decreases_to_view, vstd::seq::axiom_seq_index_decreases;

/// One node of a document tree: scalars, lists and key/value tables.
#[derive(Debug, PartialEq)]
pub enum Yaml {
    Null,
    Bool(bool),
    /// A numeric scalar, kept as the digits of its textual form.
    Num(String),
    Str(String),
    Arr(Vec<Yaml>),
    Obj(Vec<(Yaml, Yaml)>),
}

/// The abstraction of a tree: the same shape over `Seq<char>` and `Seq`.
#[verifier::ext_equal]
pub enum YamlV {
    Null,
    Bool(bool),
    Num(Seq<char>),
    Str(Seq<char>),
    Arr(Seq<YamlV>),
    Obj(Seq<(YamlV, YamlV)>),
}

pub open spec fn yaml_view(y: Yaml) -> YamlV
    decreases y,
{
    match y {
        Yaml::Null => YamlV::Null,
        Yaml::Bool(b) => YamlV::Bool(b),
        Yaml::Num(s) => YamlV::Num(s@),
        Yaml::Str(s) => YamlV::Str(s@),
        Yaml::Arr(items) => YamlV::Arr(
            Seq::new(
                items@.len(),
                |i: int|
                    if 0 <= i < items@.len() {
                        yaml_view(items@[i])
                    } else {
                        YamlV::Null
                    },
            ),
        ),
        Yaml::Obj(entries) => YamlV::Obj(
            Seq::new(
                entries@.len(),
                |i: int|
                    if 0 <= i < entries@.len() {
                        (yaml_view(entries@[i].0), yaml_view(entries@[i].1))
                    } else {
                        (YamlV::Null, YamlV::Null)
                    },
            ),
        ),
    }
}

impl DeepView for Yaml {
    type V = YamlV;

    open spec fn deep_view(&self) -> YamlV {
        yaml_view(*self)
    }
}

impl Clone for Yaml {
    /// A clone stands for the same tree.
    #[verifier::rlimit(50)]
    fn clone(&self) -> (res: Self)
        ensures
            res.deep_view() == self.deep_view(),
        decreases self,
    {
        match self {
            Yaml::Null => Yaml::Null,
            Yaml::Bool(b) => Yaml::Bool(*b),
            Yaml::Num(s) => Yaml::Num(s.clone()),
            Yaml::Str(s) => Yaml::Str(s.clone()),
            Yaml::Arr(items) => {
                let mut out: Vec<Yaml> = Vec::new();
                let mut i: usize = 0;
                while i < items.len()
                    invariant
                        *self == Yaml::Arr(*items),
                        i <= items@.len(),
                        out@.len() == i,
                        forall|j: int| 0 <= j < i ==> yaml_view(#[trigger] out@[j]) == yaml_view(items@[j]),
                    decreases items@.len() - i,
                {
                    proof {
                        assert(decreases_to!(*self => self->Arr_0));
                        assert(decreases_to!(self->Arr_0 => self->Arr_0[i as int]));
                        assert(self->Arr_0 == *items);
                    }
                    out.push(items[i].clone());
                    i += 1;
                }
                proof {
                    let s_out = yaml_view(Yaml::Arr(out))->Arr_0;
                    let s_in = yaml_view(*self)->Arr_0;
                    assert(s_out.len() == out@.len());
                    assert(s_in.len() == items@.len());
                    assert forall|k: int| 0 <= k < s_out.len() implies s_out[k] == s_in[k] by {
                        assert(s_out[k] == yaml_view(out@[k]));
                        assert(s_in[k] == yaml_view(items@[k]));
                    }
                    assert(s_out =~= s_in);
                    assert(yaml_view(Yaml::Arr(out)) == YamlV::Arr(s_out));
                    assert(yaml_view(*self) == YamlV::Arr(s_in));
                }
                Yaml::Arr(out)
            },
            Yaml::Obj(entries) => {
                let mut out: Vec<(Yaml, Yaml)> = Vec::new();
                let mut i: usize = 0;
                while i < entries.len()
                    invariant
                        *self == Yaml::Obj(*entries),
                        i <= entries@.len(),
                        out@.len() == i,
                        forall|j: int| 0 <= j < i ==> yaml_view((#[trigger] out@[j]).0) == yaml_view(
                            entries@[j].0,
                        ) && yaml_view(out@[j].1) == yaml_view(entries@[j].1),
                    decreases entries@.len() - i,
                {
                    proof {
                        assert(decreases_to!(*self => self->Obj_0));
                        assert(decreases_to!(self->Obj_0 => self->Obj_0[i as int]));
                        assert(decreases_to!(self->Obj_0[i as int] => self->Obj_0[i as int].0));
                        assert(decreases_to!(self->Obj_0[i as int] => self->Obj_0[i as int].1));
                        assert(self->Obj_0 == *entries);
                    }
                    let kv = &entries[i];
                    out.push((kv.0.clone(), kv.1.clone()));
                    i += 1;
                }
                proof {
                    let s_out = yaml_view(Yaml::Obj(out))->Obj_0;
                    let s_in = yaml_view(*self)->Obj_0;
                    assert(s_out.len() == out@.len());
                    assert(s_in.len() == entries@.len());
                    assert forall|k: int| 0 <= k < s_out.len() implies s_out[k] == s_in[k] by {
                        assert(s_out[k] == (yaml_view(out@[k].0), yaml_view(out@[k].1)));
                        assert(s_in[k] == (yaml_view(entries@[k].0), yaml_view(entries@[k].1)));
                    }
                    assert(s_out =~= s_in);
                    assert(yaml_view(Yaml::Obj(out)) == YamlV::Obj(s_out));
                    assert(yaml_view(*self) == YamlV::Obj(s_in));
                }
                Yaml::Obj(out)
            },
        }
    }
}

} // verus!
