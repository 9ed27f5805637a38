use vstd::prelude::*;
use crate::value::{JsonValue, SpecJson, model, model_entries, lemma_model_entries, find_key};
use crate::assoc::{spec_lookup, spec_remove, lemma_lookup_at, lemma_lookup_none, lemma_remove_at,
    lemma_remove_none};
use crate::merge::{spec_merge, merge};
use crate::params::{params_view, spec_set_all, merged_params};
use crate::error::QueryError;

verus! {

/// The reserved field that carries the continuation marker.
pub open spec fn continue_key() -> Seq<char> {
    "continue"@
}

/// What a page's continuation field asks for next.
pub enum ContAction {
    /// No further page: the field is absent, not an object, or empty.
    Stop,
    /// Another page, to be requested with these extra fields.
    Next(Seq<(Seq<char>, Seq<char>)>),
    /// The field is an object but not flat string-valued: a malformed
    /// response.
    Malformed,
}

/// The continuation marker drawn from the entries of a continuation object:
/// every entry except the reserved field itself, in order, each of which
/// must hold a string.
pub open spec fn cont_pairs(ces: Seq<(Seq<char>, SpecJson)>, i: int) -> Option<
    Seq<(Seq<char>, Seq<char>)>,
>
    decreases ces.len() - i,
{
    if i < 0 || i >= ces.len() {
        Option::Some(Seq::empty())
    } else {
        let rest = cont_pairs(ces, i + 1);
        if ces[i].0 == continue_key() {
            rest
        } else {
            match ces[i].1 {
                SpecJson::Text(t) => match rest {
                    Option::Some(r) => Option::Some(seq![(ces[i].0, t)] + r),
                    Option::None => Option::None,
                },
                _ => Option::None,
            }
        }
    }
}

/// Reads a page's continuation field and decides how the fetch goes on.
pub open spec fn extract_action(es: Seq<(Seq<char>, SpecJson)>) -> ContAction {
    match spec_lookup(es, continue_key()) {
        Option::None => ContAction::Stop,
        Option::Some(c) => match c {
            SpecJson::Obj(ces) => match cont_pairs(ces, 0) {
                Option::Some(ps) => if ps.len() == 0 {
                    ContAction::Stop
                } else {
                    ContAction::Next(ps)
                },
                Option::None => ContAction::Malformed,
            },
            _ => ContAction::Stop,
        },
    }
}

/// A page's data: its entries with the continuation field stripped.
pub open spec fn page_body(es: Seq<(Seq<char>, SpecJson)>) -> Seq<(Seq<char>, SpecJson)> {
    spec_remove(es, continue_key())
}

/// The continuation-driven query engine, one multi-page fetch. The caller
/// requests `next_params()`, performs the exchange, and feeds the parsed
/// page back through `absorb_page` until `done`; `take_result` then yields
/// the accumulated response.
pub struct ContinuationEngine {
    /// The caller's fields, repeated on every page's request.
    pub base_params: Vec<(String, String)>,
    /// The pages merged so far; always an object.
    pub accumulator: JsonValue,
    /// The continuation marker of the latest page, empty before the first.
    pub cont: Vec<(String, String)>,
    /// Whether the fetch has finished, by termination or by error.
    pub done: bool,
}

impl ContinuationEngine {
    /// The accumulator keeps an object shape throughout.
    pub open spec fn wf(&self) -> bool {
        self.accumulator@ is Obj
    }

    /// A fresh engine: empty accumulator, no continuation, not done.
    pub fn new(base_params: Vec<(String, String)>) -> (e: ContinuationEngine)
        ensures
            e.wf(),
            !e.done,
            e.base_params == base_params,
            e.accumulator@ == SpecJson::Obj(Seq::<(Seq<char>, SpecJson)>::empty()),
            e.cont@.len() == 0,
    {
        ContinuationEngine {
            base_params,
            accumulator: JsonValue::Obj(Vec::new()),
            cont: Vec::new(),
            done: false,
        }
    }

    /// The fields of the next request: the base fields, overridden or
    /// extended by the current continuation marker.
    pub fn next_params(&self) -> (ps: Vec<(String, String)>)
        requires
            !self.done,
        ensures
            params_view(ps@) == spec_set_all(
                params_view(self.base_params@),
                params_view(self.cont@),
                0,
            ),
    {
        merged_params(&self.base_params, &self.cont)
    }

    /// Folds one page into the accumulator and decides whether the fetch
    /// goes on. A page that is not an object is rejected whole; a present
    /// but non-flat continuation object is a malformed response; otherwise
    /// the page's data (continuation field stripped) is deep-merged in, and
    /// the engine either stops or records the next continuation marker.
    #[verifier::loop_isolation(false)]
    pub fn absorb_page(&mut self, page: JsonValue) -> (r: Result<(), QueryError>)
        requires
            !old(self).done,
            old(self).wf(),
        ensures
            final(self).wf(),
            final(self).base_params == old(self).base_params,
            match page@ {
                SpecJson::Obj(es) => match extract_action(es) {
                    ContAction::Malformed => {
                        &&& r == Result::<(), QueryError>::Err(QueryError::MalformedContinuation)
                        &&& final(self).done
                        &&& final(self).accumulator == old(self).accumulator
                    },
                    ContAction::Stop => {
                        &&& r == Result::<(), QueryError>::Ok(())
                        &&& final(self).done
                        &&& final(self).accumulator@ == spec_merge(
                            old(self).accumulator@,
                            SpecJson::Obj(page_body(es)),
                        )
                    },
                    ContAction::Next(ps) => {
                        &&& r == Result::<(), QueryError>::Ok(())
                        &&& !final(self).done
                        &&& params_view(final(self).cont@) == ps
                        &&& final(self).accumulator@ == spec_merge(
                            old(self).accumulator@,
                            SpecJson::Obj(page_body(es)),
                        )
                    },
                },
                _ => {
                    &&& r == Result::<(), QueryError>::Err(QueryError::TopLevelShape)
                    &&& final(self).done
                    &&& final(self).accumulator == old(self).accumulator
                },
            },
    {
        match page {
            JsonValue::Obj(mut entries) => {
                let ghost es = model_entries(entries@);
                proof {
                    lemma_model_entries(entries@);
                }
                let ckey: String = "continue".to_owned();
                let found = find_key(&entries, &ckey);
                let mut pairs: Vec<(String, String)> = Vec::new();
                let mut is_next = false;
                match found {
                    Option::None => {
                        proof {
                            lemma_lookup_none(es, continue_key());
                            lemma_remove_none(es, continue_key());
                        }
                    },
                    Option::Some(i) => {
                        proof {
                            lemma_lookup_at(es, continue_key(), i as int);
                            lemma_remove_at(es, continue_key(), i as int);
                        }
                        match &entries[i].1 {
                            JsonValue::Obj(ces) => {
                                let ghost cs = model_entries(ces@);
                                proof {
                                    lemma_model_entries(ces@);
                                }
                                let mut j: usize = 0;
                                while j < ces.len()
                                    invariant
                                        self.accumulator == old(self).accumulator,
                                        self.base_params == old(self).base_params,
                                        self.cont == old(self).cont,
                                        self.done == old(self).done,
                                        j <= ces@.len(),
                                        cs == model_entries(ces@),
                                        cs.len() == ces@.len(),
                                        forall|t: int| 0 <= t < ces@.len() ==> cs[t] == (
                                            ces@[t].0@,
                                            model(ces@[t].1),
                                        ),
                                        ckey@ == continue_key(),
                                        match cont_pairs(cs, j as int) {
                                            Option::Some(rest) => cont_pairs(cs, 0)
                                                == Option::Some(params_view(pairs@) + rest),
                                            Option::None => cont_pairs(cs, 0) is None,
                                        },
                                    decreases ces@.len() - j,
                                {
                                    let e = &ces[j];
                                    if e.0 == ckey {
                                        proof {
                                            assert(cont_pairs(cs, j as int) == cont_pairs(
                                                cs,
                                                j + 1,
                                            ));
                                        }
                                    } else {
                                        match &e.1 {
                                            JsonValue::Text(t) => {
                                                let ghost before = params_view(pairs@);
                                                pairs.push((e.0.clone(), t.clone()));
                                                proof {
                                                    assert(params_view(pairs@) =~= before.push(
                                                        (e.0@, t@),
                                                    ));
                                                    if cont_pairs(cs, j + 1) is Some {
                                                        let r1 = cont_pairs(
                                                            cs,
                                                            j + 1,
                                                        )->Some_0;
                                                        assert(cont_pairs(cs, j as int)
                                                            == Option::Some(
                                                            seq![(e.0@, t@)] + r1,
                                                        ));
                                                        assert(params_view(pairs@) + r1
                                                            =~= before + (seq![(e.0@, t@)]
                                                            + r1));
                                                    }
                                                }
                                            },
                                            _ => {
                                                proof {
                                                    assert(cont_pairs(cs, j as int) is None);
                                                }
                                                self.done = true;
                                                return Result::Err(
                                                    QueryError::MalformedContinuation,
                                                );
                                            },
                                        }
                                    }
                                    j = j + 1;
                                }
                                proof {
                                    assert(cont_pairs(cs, ces@.len() as int) == Option::Some(
                                        Seq::<(Seq<char>, Seq<char>)>::empty(),
                                    ));
                                    assert(params_view(pairs@) + Seq::<
                                        (Seq<char>, Seq<char>),
                                    >::empty() =~= params_view(pairs@));
                                }
                                if pairs.len() > 0 {
                                    is_next = true;
                                }
                            },
                            _ => {
                            },
                        }
                        let ghost entries_before = entries@;
                        let _removed = entries.remove(i);
                        proof {
                            lemma_model_entries(entries@);
                            assert(model_entries(entries@) =~= es.remove(i as int));
                        }
                    },
                }
                merge(&mut self.accumulator, JsonValue::Obj(entries));
                if is_next {
                    self.cont = pairs;
                    self.done = false;
                } else {
                    self.cont = Vec::new();
                    self.done = true;
                }
                Result::Ok(())
            },
            _ => {
                self.done = true;
                Result::Err(QueryError::TopLevelShape)
            },
        }
    }

    /// Whether the fetch has finished.
    pub fn is_done(&self) -> (r: bool)
        ensures
            r == self.done,
    {
        self.done
    }

    /// The accumulated response, with any lingering continuation field
    /// stripped.
    pub fn take_result(self) -> (r: JsonValue)
        requires
            self.done,
            self.wf(),
        ensures
            r@ == (match self.accumulator@ {
                SpecJson::Obj(es) => SpecJson::Obj(spec_remove(es, continue_key())),
                other => other,
            }),
    {
        match self.accumulator {
            JsonValue::Obj(mut entries) => {
                let ghost es = model_entries(entries@);
                proof {
                    lemma_model_entries(entries@);
                }
                let ckey: String = "continue".to_owned();
                match find_key(&entries, &ckey) {
                    Option::Some(i) => {
                        proof {
                            lemma_remove_at(es, continue_key(), i as int);
                        }
                        let _removed = entries.remove(i);
                        proof {
                            lemma_model_entries(entries@);
                            assert(model_entries(entries@) =~= es.remove(i as int));
                        }
                        JsonValue::Obj(entries)
                    },
                    Option::None => {
                        proof {
                            lemma_remove_none(es, continue_key());
                        }
                        JsonValue::Obj(entries)
                    },
                }
            },
            other => other,
        }
    }
}

} // verus!
