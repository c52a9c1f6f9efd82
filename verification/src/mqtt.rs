//! What is reported over MQTT, and the orders that arrive over it.
use crate::parse_log::{
    fields, lemma_decimal_reads_back, lemma_field_of_one, lemma_field_of_next, lemma_no_comma,
};
use crate::pentair::circuit::Circuit;
use crate::pentair::message::{MessageModel, PentairMessage, StateModel, SystemState};
use crate::text::{append_decimal, append_truth, decimal, same_text, truth};
use vstd::prelude::*;
use vstd::string::StringExecFns;

verus! {

/// The topic that the state of the pool is reported under.
pub const STATE_TOPIC: &'static str = "pool/state";

/// The topic for orders to the pool pump.
pub const PUMP_TOPIC: &'static str = "pool/pump/set";

/// The topic for orders to the pool light, which hangs on the first auxiliary circuit.
pub const LIGHT_TOPIC: &'static str = "pool/light/set";

/// Something to publish.
pub struct Publication {
    pub topic: String,
    pub payload: String,
}

/// What a [`Publication`] says.
#[verifier::ext_equal]
pub struct PublicationModel {
    pub topic: Seq<char>,
    pub payload: Seq<char>,
}

impl View for Publication {
    type V = PublicationModel;

    open spec fn view(&self) -> PublicationModel {
        PublicationModel { topic: self.topic@, payload: self.payload@ }
    }
}

/// The JSON object that reports `state`.
pub open spec fn state_json(state: StateModel) -> Seq<char> {
    "{\"pool_on\":"@ + truth(state.pool_on)
        + ",\"spa_on\":"@ + truth(state.spa_on)
        + ",\"water_temp\":"@ + decimal(state.water_temp as nat)
        + ",\"air_temp\":"@ + decimal(state.air_temp as nat)
        + ",\"solar_temp\":"@ + decimal(state.solar_temp as nat)
        + "}"@
}

/// What is published when `message` has come in: the state, if it is a status message.
pub open spec fn publication_of(message: MessageModel) -> Option<PublicationModel> {
    match message {
        MessageModel::Status(state) => Some(
            PublicationModel { topic: STATE_TOPIC@, payload: state_json(state) },
        ),
        _ => None,
    }
}

/// The circuit that orders under `topic` switch.
pub open spec fn circuit_of_topic(topic: Seq<char>) -> Option<Circuit> {
    if topic == PUMP_TOPIC@ {
        Some(Circuit::Pool)
    } else if topic == LIGHT_TOPIC@ {
        Some(Circuit::Aux1)
    } else {
        None
    }
}

/// The order that `payload` under `topic` stands for.
pub open spec fn commanded(topic: Seq<char>, payload: Seq<u8>) -> Option<PentairMessage> {
    match circuit_of_topic(topic) {
        Some(circuit) => Some(PentairMessage::CircuitChange(circuit, payload == on_word())),
        None => None,
    }
}

/// The two bytes `ON`.
pub open spec fn on_word() -> Seq<u8> {
    seq![0x4Fu8, 0x4Eu8]
}

/// The report of `state`.
pub fn state_report(state: &SystemState) -> (report: Publication)
    ensures
        Some(report@) == publication_of(MessageModel::Status(state@)),
{
    let mut payload: String = String::new();
    payload.append("{\"pool_on\":");
    append_truth(&mut payload, state.pool_on);
    payload.append(",\"spa_on\":");
    append_truth(&mut payload, state.spa_on);
    payload.append(",\"water_temp\":");
    append_decimal(&mut payload, state.water_temp);
    payload.append(",\"air_temp\":");
    append_decimal(&mut payload, state.air_temp);
    payload.append(",\"solar_temp\":");
    append_decimal(&mut payload, state.solar_temp);
    payload.append("}");
    assert(payload@ =~= state_json(state@));
    Publication { topic: STATE_TOPIC.to_owned(), payload }
}

/// The message that carries out the order `payload` under `topic`, if that is a topic for
/// orders. The order `ON` switches on, any other order off.
pub fn command_for(topic: &str, payload: &[u8]) -> (message: Option<PentairMessage>)
    ensures
        message == (match circuit_of_topic(topic@) {
            Some(circuit) => Some(
                PentairMessage::CircuitChange(circuit, payload@ == on_word()),
            ),
            None => None,
        }),
        message == commanded(topic@, payload@),
{
    let on: bool = payload.len() == 2 && payload[0] == 0x4F && payload[1] == 0x4E;
    assert(on == (payload@ =~= on_word()));
    if same_text(topic, PUMP_TOPIC) {
        Some(PentairMessage::CircuitChange(Circuit::Pool, on))
    } else if same_text(topic, LIGHT_TOPIC) {
        Some(PentairMessage::CircuitChange(Circuit::Aux1, on))
    } else {
        None
    }
}

/// Each of the two topics for orders switches its own circuit, and the reports that are
/// published are not taken for orders.
pub proof fn law_topics_are_told_apart()
    ensures
        circuit_of_topic(PUMP_TOPIC@) == Some(Circuit::Pool),
        circuit_of_topic(LIGHT_TOPIC@) == Some(Circuit::Aux1),
        circuit_of_topic(STATE_TOPIC@) is None,
{
    reveal_strlit("pool/state");
    reveal_strlit("pool/pump/set");
    reveal_strlit("pool/light/set");
    assert(STATE_TOPIC@.len() == 10);
    assert(PUMP_TOPIC@.len() == 13);
    assert(LIGHT_TOPIC@.len() == 14);
}

/// The members of a JSON object that holds no others: what stands between its braces, parted by
/// commas.
pub open spec fn members(json: Seq<char>) -> Seq<Seq<char>> {
    fields(json.subrange(1, json.len() - 1))
}

proof fn lemma_truth_has_no_comma(b: bool)
    ensures
        !truth(b).contains(','),
{
    reveal_strlit("true");
    reveal_strlit("false");
}

proof fn lemma_joined_has_no_comma(a: Seq<char>, b: Seq<char>)
    requires
        !a.contains(','),
        !b.contains(','),
    ensures
        !(a + b).contains(','),
{
    assert forall|i: int| 0 <= i < (a + b).len() implies (a + b)[i] != ',' by {
        if i < a.len() {
            assert(a[i] != ',');
        } else {
            assert(b[i - a.len()] != ',');
        }
    }
}

/// The report of a state is a JSON object with five members, and each says under its key what
/// the state says there.
pub proof fn law_report_can_be_read(state: StateModel)
    ensures
        ({
            let json = state_json(state);
            &&& json.len() > 1
            &&& json[0] == '{'
            &&& json.last() == '}'
            &&& members(json).len() == 5
            &&& members(json)[0] == "\"pool_on\":"@ + if state.pool_on { "true"@ } else { "false"@ }
            &&& members(json)[1] == "\"spa_on\":"@ + if state.spa_on { "true"@ } else { "false"@ }
            &&& members(json)[2] == "\"water_temp\":"@ + decimal(state.water_temp as nat)
            &&& members(json)[3] == "\"air_temp\":"@ + decimal(state.air_temp as nat)
            &&& members(json)[4] == "\"solar_temp\":"@ + decimal(state.solar_temp as nat)
        }),
{
    reveal_strlit("{\"pool_on\":");
    reveal_strlit("\"pool_on\":");
    reveal_strlit(",\"spa_on\":");
    reveal_strlit("\"spa_on\":");
    reveal_strlit(",\"water_temp\":");
    reveal_strlit("\"water_temp\":");
    reveal_strlit(",\"air_temp\":");
    reveal_strlit("\"air_temp\":");
    reveal_strlit(",\"solar_temp\":");
    reveal_strlit("\"solar_temp\":");
    reveal_strlit("}");
    let json = state_json(state);
    let pool = "\"pool_on\":"@ + truth(state.pool_on);
    let spa = "\"spa_on\":"@ + truth(state.spa_on);
    let water = "\"water_temp\":"@ + decimal(state.water_temp as nat);
    let air = "\"air_temp\":"@ + decimal(state.air_temp as nat);
    let solar = "\"solar_temp\":"@ + decimal(state.solar_temp as nat);
    let comma = seq![','];
    lemma_truth_has_no_comma(state.pool_on);
    lemma_truth_has_no_comma(state.spa_on);
    lemma_no_comma(state.water_temp as nat);
    lemma_no_comma(state.air_temp as nat);
    lemma_no_comma(state.solar_temp as nat);
    lemma_joined_has_no_comma("\"pool_on\":"@, truth(state.pool_on));
    lemma_joined_has_no_comma("\"spa_on\":"@, truth(state.spa_on));
    lemma_joined_has_no_comma("\"water_temp\":"@, decimal(state.water_temp as nat));
    lemma_joined_has_no_comma("\"air_temp\":"@, decimal(state.air_temp as nat));
    lemma_joined_has_no_comma("\"solar_temp\":"@, decimal(state.solar_temp as nat));
    let two = pool + comma + spa;
    let three = two + comma + water;
    let four = three + comma + air;
    let five = four + comma + solar;
    assert("{\"pool_on\":"@ =~= seq!['{'] + "\"pool_on\":"@);
    assert(",\"spa_on\":"@ =~= comma + "\"spa_on\":"@);
    assert(",\"water_temp\":"@ =~= comma + "\"water_temp\":"@);
    assert(",\"air_temp\":"@ =~= comma + "\"air_temp\":"@);
    assert(",\"solar_temp\":"@ =~= comma + "\"solar_temp\":"@);
    assert("}"@ =~= seq!['}']);
    assert(json =~= seq!['{'] + five + seq!['}']);
    assert(json.subrange(1, json.len() - 1) =~= five);
    lemma_field_of_one(pool);
    lemma_field_of_next(pool, spa);
    lemma_field_of_next(two, water);
    lemma_field_of_next(three, air);
    lemma_field_of_next(four, solar);
}

/// Two reports are the same exactly where the two states agree in all that is reported. The
/// other switches are not.
pub proof fn law_reports_tell_states_apart(a: StateModel, b: StateModel)
    ensures
        state_json(a) == state_json(b) <==> {
            &&& a.pool_on == b.pool_on
            &&& a.spa_on == b.spa_on
            &&& a.water_temp == b.water_temp
            &&& a.air_temp == b.air_temp
            &&& a.solar_temp == b.solar_temp
        },
{
    if state_json(a) == state_json(b) {
        law_report_can_be_read(a);
        law_report_can_be_read(b);
        reveal_strlit("true");
        reveal_strlit("false");
        assert("true"@.len() == 4 && "false"@.len() == 5);
        let json = state_json(a);
        lemma_same_number("\"water_temp\":"@, a.water_temp as nat, b.water_temp as nat);
        lemma_same_number("\"air_temp\":"@, a.air_temp as nat, b.air_temp as nat);
        lemma_same_number("\"solar_temp\":"@, a.solar_temp as nat, b.solar_temp as nat);
        assert(members(json)[0].len() == "\"pool_on\":"@.len() + if a.pool_on { 4int } else { 5 });
        assert(members(json)[1].len() == "\"spa_on\":"@.len() + if a.spa_on { 4int } else { 5 });
    }
}

proof fn lemma_same_number(key: Seq<char>, a: nat, b: nat)
    requires
        key + decimal(a) == key + decimal(b),
    ensures
        a == b,
{
    assert(decimal(a) =~= (key + decimal(a)).skip(key.len() as int));
    assert(decimal(b) =~= (key + decimal(b)).skip(key.len() as int));
    lemma_decimal_reads_back(a);
    lemma_decimal_reads_back(b);
}

/// A status message is published, under its topic and with the report of its state. Nothing else
/// is.
pub proof fn law_only_states_are_published(message: MessageModel)
    ensures
        match (message, publication_of(message)) {
            (MessageModel::Status(state), Some(report)) => {
                &&& report.topic == "pool/state"@
                &&& report.payload == state_json(state)
            },
            (MessageModel::Status(_), None) => false,
            (_, report) => report is None,
        },
{
}

/// What an order over MQTT comes to: the topic says which circuit, the two letters `ON` switch it
/// on, and anything else switches it off. Under other topics there are no orders.
pub proof fn law_meaning_of_a_command(topic: Seq<char>, payload: Seq<u8>)
    ensures
        match commanded(topic, payload) {
            Some(PentairMessage::CircuitChange(circuit, on)) => {
                &&& topic == "pool/pump/set"@ || topic == "pool/light/set"@
                &&& topic == "pool/pump/set"@ <==> circuit == Circuit::Pool
                &&& topic == "pool/light/set"@ <==> circuit == Circuit::Aux1
                &&& on <==> payload.len() == 2 && payload[0] == 'O' as u8 && payload[1]
                    == 'N' as u8
            },
            Some(_) => false,
            None => topic != "pool/pump/set"@ && topic != "pool/light/set"@,
        },
{
    law_topics_are_told_apart();
    let on = payload == on_word();
    assert(on == (payload =~= on_word()));
}

/// What the publication and its model say is the same.
pub proof fn law_model_says_what_the_publication_says(report: Publication)
    ensures
        report@.topic == report.topic@,
        report@.payload == report.payload@,
{
}

} // verus!
