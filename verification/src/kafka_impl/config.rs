//! Configuration of the Kafka clients.
use rdkafka::ClientConfig;
use vstd::prelude::*;
use vstd::string::*;

verus! {

/// Declares [`rdkafka::ClientConfig`], which is read through [`config_settings`] alone.
#[verifier::external_type_specification]
#[verifier::external_body]
pub struct ExClientConfig(ClientConfig);

/// The settings that a [`ClientConfig`] holds.
pub uninterp spec fn config_settings(config: ClientConfig) -> Map<Seq<char>, Seq<char>>;

/// No settings.
pub open spec fn no_settings() -> Map<Seq<char>, Seq<char>> {
    Map::empty()
}

/// Starts a configuration. Trusts [`ClientConfig::new`] to make one without settings.
#[verifier::external_body]
fn new_config() -> (config: ClientConfig)
    ensures
        config_settings(config) == no_settings(),
{
    ClientConfig::new()
}

/// Sets a parameter. Trusts [`ClientConfig::set`] to put the value in place of one that the
/// parameter already has, and to leave the other parameters alone.
#[verifier::external_body]
fn set_parameter(config: &mut ClientConfig, name: &str, value: &str)
    ensures
        config_settings(*final(config)) == config_settings(*old(config)).insert(name@, value@),
{
    config.set(name, value);
}

/// The settings of a producer.
pub open spec fn producer_settings(host: Seq<char>) -> Map<Seq<char>, Seq<char>> {
    map!["bootstrap.servers"@ => host]
}

/// The settings of a consumer, which may be told to start with the oldest message.
pub open spec fn consumer_settings(
    host: Seq<char>,
    group_id: Seq<char>,
    from_earliest: bool,
) -> Map<Seq<char>, Seq<char>> {
    let common = map!["bootstrap.servers"@ => host, "group.id"@ => group_id];
    if from_earliest {
        common.insert("auto.offset.reset"@, "earliest"@)
    } else {
        common
    }
}

/// Configures a producer for a bootstrap host.
pub fn producer_config(host: &str) -> (config: ClientConfig)
    ensures
        config_settings(config) == producer_settings(host@),
{
    let mut config = new_config();
    set_parameter(&mut config, "bootstrap.servers", host);
    config
}

/// Configures a consumer for a bootstrap host and a consumer group.
pub fn consumer_config(host: &str, group_id: &str, from_earliest: bool) -> (config: ClientConfig)
    ensures
        config_settings(config) == consumer_settings(host@, group_id@, from_earliest),
{
    let mut config = new_config();
    set_parameter(&mut config, "bootstrap.servers", host);
    set_parameter(&mut config, "group.id", group_id);
    if from_earliest {
        set_parameter(&mut config, "auto.offset.reset", "earliest");
    }
    config
}

/// Whether a character is a lower-case hexadecimal digit.
pub open spec fn is_hex_digit(c: char) -> bool {
    '0' <= c <= '9' || 'a' <= c <= 'f'
}

/// Whether a text is a random UUID in its hyphenated form.
pub open spec fn is_random_uuid(text: Seq<char>) -> bool {
    &&& text.len() == 36
    &&& forall|i: int|
        0 <= i < 36 ==> if i == 8 || i == 13 || i == 18 || i == 23 {
            #[trigger] text[i] == '-'
        } else {
            is_hex_digit(text[i])
        }
    &&& text[14] == '4'
    &&& text[19] == '8' || text[19] == '9' || text[19] == 'a' || text[19] == 'b'
}

/// Makes a consumer group identifier that no other consumer has.
///
/// Trusts [`uuid::Uuid::new_v4`] and its hyphenated form: the text is a random UUID. Which one is
/// left to chance.
#[verifier::external_body]
fn fresh_group_id() -> (id: String)
    ensures
        is_random_uuid(id@),
{
    uuid::Uuid::new_v4().as_hyphenated().to_string()
}

/// Whether a consumer group identifier is one that was drawn by [`fresh_group_id`].
pub closed spec fn is_fresh_group(group_id: Seq<char>) -> bool {
    exists|id: String| #[trigger] call_ensures(fresh_group_id, (), id) && id@ == group_id
}

/// Draws a consumer group identifier.
pub(crate) fn draw_group_id() -> (id: String)
    ensures
        is_fresh_group(id@),
        is_random_uuid(id@),
{
    let id = fresh_group_id();
    assert(call_ensures(fresh_group_id, (), id));
    id
}

/// A producer is configured by its bootstrap host and nothing else, whatever the host is.
pub proof fn law_producer_is_configured_by_its_host(host: &str, config: ClientConfig)
    requires
        call_ensures(producer_config, (host,), config),
    ensures
        forall|name: Seq<char>| #[trigger]
            config_settings(config).contains_key(name) <==> name == "bootstrap.servers"@,
        config_settings(config)["bootstrap.servers"@] == host@,
{
}

/// A consumer is configured by its bootstrap host and its group, whatever they are. Where it starts
/// is configured exactly if it is to start with the oldest message, and nothing else is.
pub proof fn law_consumer_is_configured_by_host_and_group(
    host: &str,
    group_id: &str,
    from_earliest: bool,
    config: ClientConfig,
)
    requires
        call_ensures(consumer_config, (host, group_id, from_earliest), config),
    ensures
        forall|name: Seq<char>| #[trigger]
            config_settings(config).contains_key(name) <==> {
                ||| name == "bootstrap.servers"@
                ||| name == "group.id"@
                ||| from_earliest && name == "auto.offset.reset"@
            },
        config_settings(config)["bootstrap.servers"@] == host@,
        config_settings(config)["group.id"@] == group_id@,
        from_earliest ==> config_settings(config)["auto.offset.reset"@] == "earliest"@,
{
    reveal_strlit("bootstrap.servers");
    reveal_strlit("group.id");
    reveal_strlit("auto.offset.reset");
    assert("bootstrap.servers"@.len() == 17 && "group.id"@.len() == 8);
    assert("bootstrap.servers"@[0] == 'b' && "auto.offset.reset"@[0] == 'a');
}

} // verus!
