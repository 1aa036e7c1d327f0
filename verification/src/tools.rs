//! The functions the assistants may call, and what is answered to them.
use vstd::prelude::*;
use crate::outside::{choose_one, random_temperature};

verus! {

// ---------------------------------------------------------------------
// Tool calls of a run that requires action
// ---------------------------------------------------------------------

/// A function call requested by a run.
#[derive(Debug)]
pub struct ToolCall {
    pub id: String,
    pub name: String,
}

/// The answer to a function call.
#[derive(Debug)]
pub struct ToolOutput {
    pub tool_call_id: String,
    pub output: String,
}

/// The answer given to a call of the function `name`: the temperature is
/// always 57 and the probability of rain 0.06; other functions get no
/// answer.
pub open spec fn tool_answer(name: Seq<char>) -> Option<Seq<char>> {
    if name == "get_current_temperature"@ {
        Some("57"@)
    } else if name == "get_rain_probability"@ {
        Some("0.06"@)
    } else {
        None
    }
}

/// The answers to a list of calls, in order, each with its call's id.
pub open spec fn tool_answers(calls: Seq<ToolCall>) -> Seq<(Seq<char>, Seq<char>)>
    decreases calls.len(),
{
    if calls.len() == 0 {
        Seq::empty()
    } else {
        let rest = tool_answers(calls.drop_last());
        match tool_answer(calls.last().name@) {
            Some(out) => rest.push((calls.last().id@, out)),
            None => rest,
        }
    }
}

/// The spec values of a list of answers.
pub open spec fn outputs_view(outs: Seq<ToolOutput>) -> Seq<(Seq<char>, Seq<char>)> {
    outs.map_values(|o: ToolOutput| (o.tool_call_id@, o.output@))
}

/// Answers the calls a run requires.
pub fn tool_outputs(calls: &Vec<ToolCall>) -> (res: Vec<ToolOutput>)
    ensures
        outputs_view(res@) == tool_answers(calls@),
{
    let temperature = "get_current_temperature".to_owned();
    let rain = "get_rain_probability".to_owned();
    let mut out: Vec<ToolOutput> = Vec::new();
    let n = calls.len();
    assert(calls@.take(0) =~= Seq::<ToolCall>::empty());
    for i in 0..n
        invariant
            n == calls.len(),
            temperature@ == "get_current_temperature"@,
            rain@ == "get_rain_probability"@,
            outputs_view(out@) == tool_answers(calls@.take(i as int)),
    {
        let ghost before = outputs_view(out@);
        let call = &calls[i];
        if call.name == temperature {
            out.push(ToolOutput { tool_call_id: call.id.clone(), output: "57".to_owned() });
        }
        if call.name == rain {
            out.push(ToolOutput { tool_call_id: call.id.clone(), output: "0.06".to_owned() });
        }
        proof {
            assert(calls@.take(i + 1).drop_last() =~= calls@.take(i as int));
            assert(calls@.take(i + 1).last() == calls@[i as int]);
            if call.name@ == "get_current_temperature"@ {
                assert(call.name@ != "get_rain_probability"@) by {
                    reveal_strlit("get_current_temperature");
                    reveal_strlit("get_rain_probability");
                    assert(call.name@.len() != "get_rain_probability"@.len());
                }
            }
            assert(outputs_view(out@) =~= tool_answers(calls@.take(i + 1)));
        }
    }
    assert(calls@.take(n as int) =~= calls@);
    out
}

// ---------------------------------------------------------------------
// The weather function of the chat tool-call example
// ---------------------------------------------------------------------

/// What the weather function answers.
#[derive(Debug)]
pub struct WeatherInfo {
    pub location: String,
    pub temperature: i32,
    pub unit: String,
    pub forecast: String,
}

/// The forecasts the weather function picks from.
pub open spec fn forecasts() -> Seq<Seq<char>> {
    seq!["sunny"@, "cloudy"@, "overcast"@, "rainy"@, "windy"@, "foggy"@, "snowy"@]
}

fn forecast_list() -> (res: Vec<String>)
    ensures
        res@.map_values(|s: String| s@) == forecasts(),
{
    let v = vec![
        "sunny".to_owned(),
        "cloudy".to_owned(),
        "overcast".to_owned(),
        "rainy".to_owned(),
        "windy".to_owned(),
        "foggy".to_owned(),
        "snowy".to_owned(),
    ];
    assert(v@.map_values(|s: String| s@) =~= forecasts());
    v
}

/// The weather at `location` in `unit`: a random temperature between 20
/// and 55 and a random forecast.
pub fn get_current_weather(location: &str, unit: &str) -> (res: WeatherInfo)
    ensures
        res.location@ == location@,
        res.unit@ == unit@,
        20 <= res.temperature <= 55,
        forecasts().contains(res.forecast@),
{
    let temperature = random_temperature();
    let options = forecast_list();
    assert(options@.map_values(|s: String| s@).len() == 7);
    let chosen = choose_one(&options);
    let ghost picked = chosen;
    let forecast = match chosen {
        Some(f) => f,
        None => "sunny".to_owned(),
    };
    proof {
        assert(picked is Some);
        let i = choose|i: int| 0 <= i < options.len() && options[i]@ == picked->0@;
        assert(options@.map_values(|s: String| s@)[i] == forecast@);
    }
    WeatherInfo {
        location: location.to_owned(),
        temperature,
        unit: unit.to_owned(),
        forecast,
    }
}

/// Calls the function an assistant asked for, with the location and the
/// unit read from the call's arguments; the unit defaults to `fahrenheit`.
/// The weather function is the only one there is.
pub fn call_fn(name: &str, location: &str, unit: Option<String>) -> (res: WeatherInfo)
    requires
        name@ == "get_current_weather"@,
    ensures
        res.location@ == location@,
        res.unit@ == (match unit {
            Some(u) => u@,
            None => "fahrenheit"@,
        }),
        20 <= res.temperature <= 55,
        forecasts().contains(res.forecast@),
{
    let unit = match unit {
        Some(u) => u,
        None => "fahrenheit".to_owned(),
    };
    get_current_weather(location, unit.as_str())
}

// ---------------------------------------------------------------------
// Polling a run
// ---------------------------------------------------------------------

/// The status of an assistant run.
#[derive(Debug, PartialEq, Eq, Structural, Clone, Copy)]
pub enum RunStatus {
    Queued,
    InProgress,
    RequiresAction,
    Cancelling,
    Cancelled,
    Failed,
    Completed,
    Incomplete,
    Expired,
}

/// Whether polling a run stops at this status. A run that completed or
/// failed is done; a cancelled or expired run is done too unless
/// `wait_past_cancel` (the plain assistant example keeps polling those).
pub open spec fn stops_polling(status: RunStatus, wait_past_cancel: bool) -> bool {
    match status {
        RunStatus::Completed | RunStatus::Failed => true,
        RunStatus::Cancelled | RunStatus::Expired => !wait_past_cancel,
        _ => false,
    }
}

/// Decides whether polling a run stops at this status.
pub fn poll_stops(status: RunStatus, wait_past_cancel: bool) -> (res: bool)
    ensures
        res == stops_polling(status, wait_past_cancel),
{
    match status {
        RunStatus::Completed | RunStatus::Failed => true,
        RunStatus::Cancelled | RunStatus::Expired => !wait_past_cancel,
        _ => false,
    }
}

} // verus!

verus! {

/// The message of a failed deletion of an assistant that is ignored: the
/// assistant was already gone.
pub open spec fn deletion_already_done(message: Seq<char>) -> bool {
    crate::text::contains(message, "No assistant found"@)
}

/// Whether a failed deletion of an assistant, reported with this message,
/// is ignored because the assistant was already gone.
pub fn deletion_error_ignored(message: &str) -> (res: bool)
    ensures
        res == deletion_already_done(message@),
{
    crate::text::str_contains(message, "No assistant found")
}

} // verus!

verus! {

/// Every call of a known function gets its own answer, with its own id,
/// after the answers to the calls before it, even when the same function
/// was called before: a temperature call is answered `57`, a rain call
/// `0.06`, and a call of any other function adds nothing.
pub proof fn lemma_each_call_answered(calls: Seq<ToolCall>, call: ToolCall)
    ensures
        call.name@ == "get_current_temperature"@ ==> tool_answers(calls.push(call)) == tool_answers(
            calls,
        ).push((call.id@, "57"@)),
        call.name@ == "get_rain_probability"@ ==> tool_answers(calls.push(call)) == tool_answers(
            calls,
        ).push((call.id@, "0.06"@)),
        call.name@ != "get_current_temperature"@ && call.name@ != "get_rain_probability"@
            ==> tool_answers(calls.push(call)) == tool_answers(calls),
        tool_answers(calls.push(call)).len() == tool_answers(calls).len() + (if call.name@
            == "get_current_temperature"@ || call.name@ == "get_rain_probability"@ {
            1int
        } else {
            0int
        }),
{
    reveal_strlit("get_current_temperature");
    reveal_strlit("get_rain_probability");
    assert("get_current_temperature"@.len() != "get_rain_probability"@.len());
    let all = calls.push(call);
    assert(all.drop_last() =~= calls);
    assert(all.last() == call);
}

/// The number of answers is the number of calls of known functions,
/// repeated names included.
pub proof fn lemma_answer_count(calls: Seq<ToolCall>)
    ensures
        tool_answers(calls).len() == calls.filter(
            |c: ToolCall| c.name@ == "get_current_temperature"@ || c.name@ == "get_rain_probability"@,
        ).len(),
    decreases calls.len(),
{
    let known = |c: ToolCall| c.name@ == "get_current_temperature"@ || c.name@ == "get_rain_probability"@;
    if calls.len() == 0 {
        assert(calls.filter(known) =~= Seq::<ToolCall>::empty());
    } else {
        let front = calls.drop_last();
        let call = calls.last();
        assert(front.push(call) =~= calls);
        lemma_answer_count(front);
        lemma_each_call_answered(front, call);
        front.lemma_filter_push(call, known);
    }
}

} // verus!
